use vstd::prelude::*;
use vstd::string::*;

use crate::groups::{contains_text, has_text};
use crate::history::texts;
use crate::ordering::text_lt;
use crate::sections::{ascending, insert_key};
use crate::selection::strings_view;
use crate::strings::{char_range, collect_chars, concat_str, str_eq};

verus! {

broadcast use vstd::string::group_string_axioms;

/// A CSS class of a chapter's style catalog: its name, the tag it suggests,
/// and whether it is a block class (else an inline one).
pub struct StyleClass {
    pub class: String,
    pub tag: Option<String>,
    pub block: bool,
}

/// A style class as plain values.
pub struct StyleClassView {
    pub class: Seq<char>,
    pub tag: Option<Seq<char>>,
    pub block: bool,
}

impl View for StyleClass {
    type V = StyleClassView;

    open spec fn view(&self) -> StyleClassView {
        StyleClassView {
            class: self.class@,
            tag: match self.tag {
                Some(t) => Some(t@),
                None => None,
            },
            block: self.block,
        }
    }
}

/// The catalog as plain values.
pub open spec fn catalog_view(v: Seq<StyleClass>) -> Seq<StyleClassView> {
    v.map_values(|c: StyleClass| c@)
}

/// The tag a class goes under: the one it suggests, else `p` for a block
/// class and `span` for an inline one.
pub open spec fn tag_of(c: StyleClassView) -> Seq<char> {
    match c.tag {
        Some(t) => t,
        None => if c.block { "p"@ } else { "span"@ },
    }
}

/// Some class of the catalog goes under `tag`.
pub open spec fn has_tag(cat: Seq<StyleClassView>, tag: Seq<char>) -> bool {
    exists|i: int| 0 <= i < cat.len() && tag_of(#[trigger] cat[i]) == tag
}

/// The classes under `tag`, each once, in order of first appearance.
pub open spec fn classes_for(cat: Seq<StyleClassView>, tag: Seq<char>) -> Seq<Seq<char>>
    decreases cat.len(),
{
    if cat.len() == 0 {
        Seq::empty()
    } else {
        let rest = classes_for(cat.drop_last(), tag);
        let c = cat.last();
        if tag_of(c) == tag && !has_text(rest, c.class) { rest.push(c.class) } else { rest }
    }
}

/// An entry of the editor's style menu.
pub enum StyleMenuEntry {
    /// A plain entry that applies a tag.
    Item { label: String, tag: String },
    /// A submenu: the tag itself, then one entry per class.
    Submenu { label: String, tag: String, classes: Vec<String> },
}

/// A style menu entry as plain values.
pub enum StyleMenuView {
    Item { label: Seq<char>, tag: Seq<char> },
    Submenu { label: Seq<char>, tag: Seq<char>, classes: Seq<Seq<char>> },
}

impl View for StyleMenuEntry {
    type V = StyleMenuView;

    open spec fn view(&self) -> StyleMenuView {
        match self {
            StyleMenuEntry::Item { label, tag } => StyleMenuView::Item { label: label@, tag: tag@ },
            StyleMenuEntry::Submenu { label, tag, classes } => StyleMenuView::Submenu {
                label: label@,
                tag: tag@,
                classes: texts(classes@),
            },
        }
    }
}

/// The five common styles, as `(label, tag)`.
pub open spec fn common_style(k: int) -> (Seq<char>, Seq<char>) {
    if k == 0 { ("Negrita"@, "strong"@) }
    else if k == 1 { ("Cursiva"@, "em"@) }
    else if k == 2 { ("Título 1"@, "h1"@) }
    else if k == 3 { ("Título 2"@, "h2"@) }
    else { ("Párrafo"@, "p"@) }
}

/// `tag` is the tag of one of the common styles.
pub open spec fn is_common_tag(tag: Seq<char>) -> bool {
    exists|k: int| 0 <= k < 5 && common_style(k).1 == tag
}

/// The entry of a common style: a submenu of its classes when the catalog
/// has some, else a plain entry.
pub open spec fn common_entry(cat: Seq<StyleClassView>, k: int) -> StyleMenuView {
    let (label, tag) = common_style(k);
    if has_tag(cat, tag) {
        StyleMenuView::Submenu { label, tag, classes: classes_for(cat, tag) }
    } else {
        StyleMenuView::Item { label, tag }
    }
}

fn tag_of_exec(c: &StyleClass) -> (r: String)
    ensures
        r@ == tag_of(c@),
{
    match &c.tag {
        Some(t) => t.clone(),
        None => if c.block { "p".to_string() } else { "span".to_string() },
    }
}

fn classes_for_exec(cat: &Vec<StyleClass>, tag: &str) -> (r: Vec<String>)
    ensures
        texts(r@) == classes_for(catalog_view(cat@), tag@),
{
    let ghost cv = catalog_view(cat@);
    let mut r: Vec<String> = Vec::new();
    let mut i: usize = 0;
    while i < cat.len()
        invariant
            i <= cat@.len(),
            cv == catalog_view(cat@),
            texts(r@) == classes_for(cv.take(i as int), tag@),
        decreases cat@.len() - i,
    {
        proof {
            assert(cv.take(i + 1).drop_last() =~= cv.take(i as int));
            assert(cv.take(i + 1).last() == cat@[i as int]@);
        }
        let t = tag_of_exec(&cat[i]);
        if str_eq(t.as_str(), tag) && !contains_text(&r, cat[i].class.as_str()) {
            let ghost before = texts(r@);
            r.push(cat[i].class.clone());
            proof { assert(texts(r@) =~= before.push(cat@[i as int].class@)); }
        }
        i = i + 1;
    }
    proof { assert(cv.take(cat@.len() as int) =~= cv); }
    r
}

fn has_tag_exec(cat: &Vec<StyleClass>, tag: &str) -> (r: bool)
    ensures
        r == has_tag(catalog_view(cat@), tag@),
{
    let ghost cv = catalog_view(cat@);
    let mut i: usize = 0;
    while i < cat.len()
        invariant
            i <= cat@.len(),
            cv == catalog_view(cat@),
            forall|k: int| 0 <= k < i ==> tag_of(#[trigger] cv[k]) != tag@,
        decreases cat@.len() - i,
    {
        let t = tag_of_exec(&cat[i]);
        if str_eq(t.as_str(), tag) {
            proof { assert(tag_of(cv[i as int]) == tag@); }
            return true;
        }
        proof { assert(cv[i as int] == cat@[i as int]@); }
        i = i + 1;
    }
    false
}

fn common_entry_exec(cat: &Vec<StyleClass>, label: &str, tag: &str) -> (r: StyleMenuEntry)
    ensures
        r@ == (if has_tag(catalog_view(cat@), tag@) {
            StyleMenuView::Submenu { label: label@, tag: tag@, classes: classes_for(catalog_view(cat@), tag@) }
        } else {
            StyleMenuView::Item { label: label@, tag: tag@ }
        }),
{
    if has_tag_exec(cat, tag) {
        StyleMenuEntry::Submenu { label: label.to_string(), tag: tag.to_string(), classes: classes_for_exec(cat, tag) }
    } else {
        StyleMenuEntry::Item { label: label.to_string(), tag: tag.to_string() }
    }
}

fn is_common_tag_exec(tag: &str) -> (r: bool)
    ensures
        r == is_common_tag(tag@),
{
    let r = str_eq(tag, "strong") || str_eq(tag, "em") || str_eq(tag, "h1") || str_eq(tag, "h2") || str_eq(tag, "p");
    proof {
        if is_common_tag(tag@) {
            let k = choose|k: int| 0 <= k < 5 && common_style(k).1 == tag@;
            assert(k == 0 || k == 1 || k == 2 || k == 3 || k == 4);
        }
        if r {
            if tag@ == "strong"@ { assert(common_style(0).1 == tag@); }
            else if tag@ == "em"@ { assert(common_style(1).1 == tag@); }
            else if tag@ == "h1"@ { assert(common_style(2).1 == tag@); }
            else if tag@ == "h2"@ { assert(common_style(3).1 == tag@); }
            else { assert(common_style(4).1 == tag@); }
        }
    }
    r
}

/// The style submenu of the editor's context menu: the five common styles
/// (bold, italic, heading 1, heading 2, paragraph), each a submenu of the
/// catalog's classes under its tag or a plain entry; then, for every other
/// tag that the catalog uses, in code-point order, a submenu labelled with
/// the tag.
pub fn style_menu(cat: &Vec<StyleClass>) -> (r: Vec<StyleMenuEntry>)
    ensures
        r@.len() >= 5,
        forall|k: int| 0 <= k < 5 ==> (#[trigger] r@[k])@ == common_entry(catalog_view(cat@), k),
        forall|k: int| 5 <= k < r@.len() ==> {
            &&& (#[trigger] r@[k])@ is Submenu
            &&& r@[k]@->Submenu_label == r@[k]@->Submenu_tag
            &&& r@[k]@->Submenu_classes == classes_for(catalog_view(cat@), r@[k]@->Submenu_tag)
        },
        forall|a: int, b: int| 5 <= a < b < r@.len() ==> text_lt((#[trigger] r@[a])@->Submenu_tag, (#[trigger] r@[b])@->Submenu_tag),
        forall|t: Seq<char>| has_tag(catalog_view(cat@), t) && !is_common_tag(t)
            ==> exists|k: int| 5 <= k < r@.len() && (#[trigger] r@[k])@->Submenu_tag == t,
        forall|k: int| 5 <= k < r@.len() ==> has_tag(catalog_view(cat@), (#[trigger] r@[k])@->Submenu_tag)
            && !is_common_tag(r@[k]@->Submenu_tag),
{
    let ghost cv = catalog_view(cat@);
    let mut r: Vec<StyleMenuEntry> = Vec::new();
    r.push(common_entry_exec(cat, "Negrita", "strong"));
    r.push(common_entry_exec(cat, "Cursiva", "em"));
    r.push(common_entry_exec(cat, "Título 1", "h1"));
    r.push(common_entry_exec(cat, "Título 2", "h2"));
    r.push(common_entry_exec(cat, "Párrafo", "p"));
    proof {
        assert forall|k: int| 0 <= k < 5 implies (#[trigger] r@[k])@ == common_entry(cv, k) by {}
    }
    // the other tags, ascending
    let mut tags: Vec<String> = Vec::new();
    let mut i: usize = 0;
    while i < cat.len()
        invariant
            i <= cat@.len(),
            cv == catalog_view(cat@),
            ascending(strings_view(tags@)),
            forall|t: Seq<char>| #[trigger] strings_view(tags@).contains(t)
                <==> (exists|j: int| 0 <= j < i && tag_of(cv[j]) == t) && !is_common_tag(t),
        decreases cat@.len() - i,
    {
        let t = tag_of_exec(&cat[i]);
        proof { assert(cv[i as int] == cat@[i as int]@); }
        if !is_common_tag_exec(t.as_str()) {
            insert_key(&mut tags, t.as_str());
        }
        proof {
            assert forall|x: Seq<char>| #[trigger] strings_view(tags@).contains(x)
                <==> (exists|j: int| 0 <= j < i + 1 && tag_of(cv[j]) == x) && !is_common_tag(x) by {
                if exists|j: int| 0 <= j < i + 1 && tag_of(cv[j]) == x {
                    let j = choose|j: int| 0 <= j < i + 1 && tag_of(cv[j]) == x;
                    if j < i {
                        assert(exists|j2: int| 0 <= j2 < i && tag_of(cv[j2]) == x);
                    }
                }
            }
        }
        i = i + 1;
    }
    let ghost tv = strings_view(tags@);
    let mut k: usize = 0;
    while k < tags.len()
        invariant
            k <= tags@.len(),
            cv == catalog_view(cat@),
            tv == strings_view(tags@),
            ascending(tv),
            r@.len() == 5 + k,
            forall|j: int| 0 <= j < 5 ==> (#[trigger] r@[j])@ == common_entry(cv, j),
            forall|j: int| 5 <= j < r@.len() ==> (#[trigger] r@[j])@ == (StyleMenuView::Submenu {
                label: tv[j - 5],
                tag: tv[j - 5],
                classes: classes_for(cv, tv[j - 5]),
            }),
        decreases tags@.len() - k,
    {
        let t = &tags[k];
        r.push(StyleMenuEntry::Submenu { label: t.clone(), tag: t.clone(), classes: classes_for_exec(cat, t.as_str()) });
        k = k + 1;
    }
    proof {
        assert forall|a: int, b: int| 5 <= a < b < r@.len() implies text_lt((#[trigger] r@[a])@->Submenu_tag, (#[trigger] r@[b])@->Submenu_tag) by {
            assert(text_lt(tv[a - 5], tv[b - 5]));
        }
        assert forall|t: Seq<char>| has_tag(catalog_view(cat@), t) && !is_common_tag(t)
            implies exists|k: int| 5 <= k < r@.len() && (#[trigger] r@[k])@->Submenu_tag == t by {
            let i0 = choose|i0: int| 0 <= i0 < cv.len() && tag_of(#[trigger] cv[i0]) == t;
            assert(exists|j: int| 0 <= j < cat@.len() && tag_of(cv[j]) == t);
            assert(tv.contains(t));
            let q = choose|q: int| 0 <= q < tv.len() && tv[q] == t;
            assert(r@[q + 5]@->Submenu_tag == t);
        }
        assert forall|j: int| 5 <= j < r@.len() implies has_tag(catalog_view(cat@), (#[trigger] r@[j])@->Submenu_tag)
            && !is_common_tag(r@[j]@->Submenu_tag) by {
            let t = r@[j]@->Submenu_tag;
            assert(tv[j - 5] == t);
            assert(tv.contains(t));
            let i0 = choose|i0: int| 0 <= i0 < cat@.len() && tag_of(cv[i0]) == t;
            assert(tag_of(cv[i0]) == t);
        }
    }
    r
}

/// The label of a class entry, `tag.class`.
pub fn class_item_label(tag: &str, class: &str) -> (r: String)
    ensures
        r@ == tag@ + seq!['.'] + class@,
{
    proof { reveal_strlit("."); }
    let s = concat_str(tag, ".");
    concat_str(s.as_str(), class)
}

/// The target of a class entry, `tag|class`.
pub fn class_item_target(tag: &str, class: &str) -> (r: String)
    ensures
        r@ == tag@ + seq!['|'] + class@,
{
    proof { reveal_strlit("|"); }
    let s = concat_str(tag, "|");
    concat_str(s.as_str(), class)
}

/// The action that applies a tag, `editor.apply-tag('tag')`.
pub fn apply_tag_action(tag: &str) -> (r: String)
    ensures
        r@ == "editor.apply-tag('"@ + tag@ + "')"@,
{
    let s = concat_str("editor.apply-tag('", tag);
    concat_str(s.as_str(), "')")
}

/// The action that applies a tag with a class, `editor.apply-tag-class('tag|class')`.
pub fn apply_tag_class_action(tag: &str, class: &str) -> (r: String)
    ensures
        r@ == "editor.apply-tag-class('"@ + tag@ + seq!['|'] + class@ + "')"@,
{
    let target = class_item_target(tag, class);
    let s = concat_str("editor.apply-tag-class('", target.as_str());
    concat_str(s.as_str(), "')")
}

/// Position of the first `|` of `s`.
pub open spec fn first_bar(s: Seq<char>) -> Option<int> {
    if exists|i: int| 0 <= i < s.len() && s[i] == '|' {
        Some(choose|i: int| 0 <= i < s.len() && s[i] == '|' && forall|k: int| 0 <= k < i ==> s[k] != '|')
    } else {
        None
    }
}

/// The tag and class of a class entry's target: split at the first `|`; a
/// target without one is a class of `span`.
pub open spec fn tag_class_spec(raw: Seq<char>) -> (Seq<char>, Seq<char>) {
    match first_bar(raw) {
        Some(i) => (raw.subrange(0, i), raw.subrange(i + 1, raw.len() as int)),
        None => ("span"@, raw),
    }
}

/// Splits a class entry's target into tag and class (`split_once('|')`,
/// `span` when there is no `|`).
pub fn parse_tag_class(raw: &str) -> (r: (String, String))
    ensures
        (r.0@, r.1@) == tag_class_spec(raw@),
{
    let chars = collect_chars(raw);
    let mut i: usize = 0;
    while i < chars.len()
        invariant
            chars@ == raw@,
            i <= chars@.len(),
            forall|k: int| 0 <= k < i ==> chars@[k] != '|',
        decreases chars@.len() - i,
    {
        if chars[i] == '|' {
            proof {
                let j = choose|j: int| 0 <= j < raw@.len() && raw@[j] == '|' && forall|k: int| 0 <= k < j ==> raw@[k] != '|';
                if j < i { assert(raw@[j] != '|'); }
                if j > i { assert(raw@[i as int] == '|'); }
            }
            return (char_range(&chars, 0, i), char_range(&chars, i + 1, chars.len()));
        }
        i = i + 1;
    }
    ("span".to_string(), raw.to_string())
}

/// A class entry's target splits back into its tag and class, for a tag
/// without `|`.
pub proof fn lemma_tag_class_round_trip(tag: Seq<char>, class: Seq<char>)
    requires
        forall|k: int| 0 <= k < tag.len() ==> tag[k] != '|',
    ensures
        tag_class_spec(tag + seq!['|'] + class) == (tag, class),
{
    let s = tag + seq!['|'] + class;
    let n = tag.len() as int;
    assert(s[n] == '|');
    assert(forall|k: int| 0 <= k < n ==> s[k] == tag[k]);
    let i = choose|i: int| 0 <= i < s.len() && s[i] == '|' && forall|k: int| 0 <= k < i ==> s[k] != '|';
    if i < n { assert(s[i] == tag[i]); }
    if i > n { assert(s[n] != '|'); }
    assert(s.subrange(0, n) =~= tag);
    assert(s.subrange(n + 1, s.len() as int) =~= class);
}

/// The kind of list to create from the selection.
#[derive(PartialEq, Eq, Structural, Clone, Copy)]
pub enum ListKind {
    Unordered,
    Ordered,
}

/// The list kind of a `create-list` action's parameter: `ul` or `ol`; any
/// other is refused with a message naming it.
pub fn parse_list_kind(raw: &str) -> (r: Result<ListKind, String>)
    ensures
        raw@ == "ul"@ ==> r == Ok::<ListKind, String>(ListKind::Unordered),
        raw@ == "ol"@ ==> r == Ok::<ListKind, String>(ListKind::Ordered),
        raw@ != "ul"@ && raw@ != "ol"@ ==> r is Err && r->Err_0@ == "Tipo de lista desconocido: "@ + raw@,
{
    proof {
        reveal_strlit("ul");
        reveal_strlit("ol");
        assert("ul"@[0] != "ol"@[0]);
    }
    if str_eq(raw, "ul") {
        Ok(ListKind::Unordered)
    } else if str_eq(raw, "ol") {
        Ok(ListKind::Ordered)
    } else {
        Err(concat_str("Tipo de lista desconocido: ", raw))
    }
}

} // verus!
