//! What stands on the desktop: the kinds of items, their names, and the order they are listed in.
use vstd::prelude::*;
use vstd::string::*;
use crate::text::{
    ascii_lower, begins_with, ends_with, not_after, same_but_case, same_text, same_text_but_case, text_not_after,
};

verus! {

/// The kinds into which desktop items are sorted.
#[derive(Clone, Copy, Debug, PartialEq, Eq, Structural)]
pub enum IconKind {
    App,
    Folder,
    Document,
    Image,
    Other,
}

/// The label under which a kind is shown and stored.
pub open spec fn label_text(kind: IconKind) -> Seq<char> {
    match kind {
        IconKind::App => "[应用]"@,
        IconKind::Folder => "[文件夹]"@,
        IconKind::Document => "[文档]"@,
        IconKind::Image => "[图片]"@,
        IconKind::Other => "[其他]"@,
    }
}

impl IconKind {
    /// The label of the kind.
    pub fn label(&self) -> (r: &'static str)
        ensures
            r@ == label_text(*self),
    {
        match self {
            IconKind::App => "[应用]",
            IconKind::Folder => "[文件夹]",
            IconKind::Document => "[文档]",
            IconKind::Image => "[图片]",
            IconKind::Other => "[其他]",
        }
    }
}

/// No two kinds share a label.
pub proof fn law_labels_are_distinct(a: IconKind, b: IconKind)
    ensures
        label_text(a) == label_text(b) <==> a == b,
{
    reveal_strlit("[应用]");
    reveal_strlit("[文件夹]");
    reveal_strlit("[文档]");
    reveal_strlit("[图片]");
    reveal_strlit("[其他]");
    if a != b && label_text(a) == label_text(b) {
        assert(label_text(a).len() == label_text(b).len());
        assert(label_text(a)[1] == label_text(b)[1]);
        assert(label_text(a)[2] == label_text(b)[2]);
    }
}

/// A desktop item. The icon is the handle that the shell gave for it.
#[derive(Clone, Debug)]
pub struct DesktopItem {
    pub name: String,
    pub display_name: String,
    pub kind: IconKind,
    pub path: String,
    pub icon: Option<isize>,
}

/// A desktop item with its texts as sequences of characters.
pub struct ItemView {
    pub name: Seq<char>,
    pub display_name: Seq<char>,
    pub kind: IconKind,
    pub path: Seq<char>,
    pub icon: Option<isize>,
}

impl View for DesktopItem {
    type V = ItemView;

    open spec fn view(&self) -> ItemView {
        ItemView {
            name: self.name@,
            display_name: self.display_name@,
            kind: self.kind,
            path: self.path@,
            icon: self.icon,
        }
    }
}

/// What `str::to_lowercase` makes of a text that is not all ASCII.
pub uninterp spec fn lowercase(s: Seq<char>) -> Seq<char>;

/// `str::to_lowercase`: the lower-case form of a text, which depends on the text alone. Of a text that is
/// all ASCII it is the text with each of the letters from `A` to `Z` replaced by its small one; of any
/// other it is the form that Unicode gives, of which no more is said.
pub assume_specification[ str::to_lowercase ](s: &str) -> (r: String)
    ensures
        vstd::utf8::is_ascii_chars(s@) ==> r@ == s@.map_values(|c: char| ascii_lower(c)),
        !vstd::utf8::is_ascii_chars(s@) ==> r@ == lowercase(s@),
;

/// The lower-case form of a text.
pub open spec fn lower_form(s: Seq<char>) -> Seq<char> {
    if vstd::utf8::is_ascii_chars(s) {
        s.map_values(|c: char| ascii_lower(c))
    } else {
        lowercase(s)
    }
}

/// Two ASCII texts that differ in nothing but the case of their letters have the same lower-case form.
/// So an extension in capitals gives the same kind as in small letters.
pub proof fn law_case_does_not_matter(a: Seq<char>, b: Seq<char>)
    requires
        vstd::utf8::is_ascii_chars(a),
        same_but_case(a, b),
    ensures
        lower_form(a) == lower_form(b),
        kind_of_extension(lower_form(a)) == kind_of_extension(lower_form(b)),
{
    assert forall|i: int| 0 <= i < b.len() implies '\0' <= #[trigger] b[i] <= '\u{7f}' by {
        assert('\0' <= a[i] <= '\u{7f}');
        assert(ascii_lower(a[i]) == ascii_lower(b[i]));
    }
    assert(vstd::utf8::is_ascii_chars(b));
    assert(lower_form(a) =~= lower_form(b));
}

/// The kind of a file, by its extension in lower case.
pub open spec fn kind_of_extension(lower: Seq<char>) -> IconKind {
    if lower == "lnk"@ || lower == "exe"@ || lower == "appref-ms"@ {
        IconKind::App
    } else if lower == "doc"@ || lower == "docx"@ || lower == "pdf"@ || lower == "txt"@ || lower
        == "xls"@ || lower == "xlsx"@ || lower == "ppt"@ || lower == "pptx"@ || lower == "md"@
        || lower == "csv"@ {
        IconKind::Document
    } else if lower == "png"@ || lower == "jpg"@ || lower == "jpeg"@ || lower == "gif"@ || lower
        == "bmp"@ || lower == "webp"@ || lower == "ico"@ {
        IconKind::Image
    } else {
        IconKind::Other
    }
}

/// The kind of a file, by its extension in lower case.
pub fn extension_kind(lower: &str) -> (r: IconKind)
    ensures
        r == kind_of_extension(lower@),
{
    if same_text(lower, "lnk") || same_text(lower, "exe") || same_text(lower, "appref-ms") {
        IconKind::App
    } else if same_text(lower, "doc") || same_text(lower, "docx") || same_text(lower, "pdf")
        || same_text(lower, "txt") || same_text(lower, "xls") || same_text(lower, "xlsx")
        || same_text(lower, "ppt") || same_text(lower, "pptx") || same_text(lower, "md")
        || same_text(lower, "csv") {
        IconKind::Document
    } else if same_text(lower, "png") || same_text(lower, "jpg") || same_text(lower, "jpeg")
        || same_text(lower, "gif") || same_text(lower, "bmp") || same_text(lower, "webp")
        || same_text(lower, "ico") {
        IconKind::Image
    } else {
        IconKind::Other
    }
}

/// The kind of a file, by its extension in any case.
pub fn classify(ext: &str) -> (r: IconKind)
    ensures
        r == kind_of_extension(lower_form(ext@)),
{
    let lower: String = ext.to_lowercase();
    extension_kind(lower.as_str())
}

/// The number of bytes that the suffix of an application's file name takes, by the name in
/// lower case; zero where there is no such suffix.
pub open spec fn app_suffix_len(lower: Seq<char>) -> int {
    if ".lnk"@.is_suffix_of(lower) || ".exe"@.is_suffix_of(lower) {
        4
    } else if ".appref-ms"@.is_suffix_of(lower) {
        10
    } else {
        0
    }
}

/// The number of bytes of `name` that are displayed, given the name in lower case.
pub open spec fn kept_len(name: Seq<char>, lower: Seq<char>, kind: IconKind) -> int {
    let len = vstd::utf8::encode_utf8(name).len();
    if kind == IconKind::App {
        len - app_suffix_len(lower)
    } else {
        len as int
    }
}

/// The displayed part of `name` ends between two characters.
pub open spec fn cut_is_clean(name: Seq<char>, lower: Seq<char>, kind: IconKind) -> bool {
    let cut = kept_len(name, lower, kind);
    0 <= cut && vstd::utf8::is_char_boundary(vstd::utf8::encode_utf8(name), cut)
}

/// `shown` is the beginning of `name` that is displayed.
pub open spec fn is_display_name(
    shown: Seq<char>,
    name: Seq<char>,
    lower: Seq<char>,
    kind: IconKind,
) -> bool {
    vstd::utf8::encode_utf8(shown) == vstd::utf8::encode_utf8(name).subrange(
        0,
        kept_len(name, lower, kind),
    )
}

/// The number of bytes that the suffix of an application's file name takes.
fn suffix_len(lower: &str) -> (r: usize)
    ensures
        r == app_suffix_len(lower@),
{
    if ends_with(lower, ".lnk") || ends_with(lower, ".exe") {
        4
    } else if ends_with(lower, ".appref-ms") {
        10
    } else {
        0
    }
}

/// The displayed form of a file name: without the suffix that marks an application.
pub fn strip_lowered(name: &str, lower: &str, kind: IconKind) -> (r: String)
    requires
        cut_is_clean(name@, lower@, kind),
    ensures
        is_display_name(r@, name@, lower@, kind),
{
    if kind == IconKind::App {
        let n: usize = suffix_len(lower);
        let cut: usize = name.as_bytes().len() - n;
        let (head, tail) = name.split_at(cut);
        head.to_owned()
    } else {
        assert(vstd::utf8::encode_utf8(name@).subrange(0, vstd::utf8::encode_utf8(name@).len() as int)
            =~= vstd::utf8::encode_utf8(name@));
        name.to_owned()
    }
}

/// The displayed form of a file name. Where the suffix would begin inside of a character of
/// `name`, there is none.
pub fn strip_suffix(name: &str, kind: IconKind) -> (r: Option<String>)
    ensures
        r is Some <==> cut_is_clean(name@, lower_form(name@), kind),
        r is Some ==> is_display_name(r->0@, name@, lower_form(name@), kind),
{
    let lower: String = name.to_lowercase();
    let n: usize = if kind == IconKind::App {
        suffix_len(lower.as_str())
    } else {
        0
    };
    let len: usize = name.as_bytes().len();
    if n > len {
        return None;
    }
    if name.is_char_boundary(len - n) {
        Some(strip_lowered(name, lower.as_str(), kind))
    } else {
        None
    }
}

/// A directory entry of a desktop folder, as the file system gave it.
pub struct Entry {
    pub name: String,
    pub path: String,
    pub extension: String,
    pub is_dir: bool,
    pub icon: Option<isize>,
}

/// A directory entry of that name is left out: the folder's own settings, and dot files.
pub open spec fn is_left_out(name: Seq<char>) -> bool {
    same_but_case(name, "desktop.ini"@) || "."@.is_prefix_of(name)
}

/// Whether a directory entry of that name is left out.
pub fn left_out(name: &str) -> (r: bool)
    ensures
        r == is_left_out(name@),
{
    same_text_but_case(name, "desktop.ini") || begins_with(name, ".")
}

/// The kind of an entry: a folder, or what its extension says.
pub open spec fn entry_kind(e: Entry) -> IconKind {
    if e.is_dir {
        IconKind::Folder
    } else {
        kind_of_extension(lower_form(e.extension@))
    }
}

/// The name of the entry has a displayed form.
pub open spec fn is_presentable(e: Entry) -> bool {
    cut_is_clean(e.name@, lower_form(e.name@), entry_kind(e))
}

/// `item` is what is listed for the entry.
pub open spec fn presents(item: ItemView, e: Entry) -> bool {
    &&& item.name == e.name@
    &&& item.path == e.path@
    &&& item.icon == e.icon
    &&& item.kind == entry_kind(e)
    &&& is_display_name(item.display_name, e.name@, lower_form(e.name@), entry_kind(e))
}

/// The item that is listed for an entry, if its name has a displayed form.
pub fn present(e: &Entry) -> (r: Option<DesktopItem>)
    ensures
        r is Some <==> is_presentable(*e),
        r is Some ==> presents(r->0@, *e),
{
    let kind: IconKind = if e.is_dir {
        IconKind::Folder
    } else {
        classify(e.extension.as_str())
    };
    match strip_suffix(e.name.as_str(), kind) {
        Some(display_name) => Some(
            DesktopItem {
                name: e.name.clone(),
                display_name,
                kind,
                path: e.path.clone(),
                icon: e.icon,
            },
        ),
        None => None,
    }
}

/// The order of the list: by the label of the kind, then by name.
pub open spec fn listed_not_after(a: ItemView, b: ItemView) -> bool {
    if label_text(a.kind) == label_text(b.kind) {
        not_after(a.name, b.name)
    } else {
        not_after(label_text(a.kind), label_text(b.kind))
    }
}

/// The list with one more item, which comes behind every item that it does not precede.
pub open spec fn insert_item(s: Seq<ItemView>, x: ItemView) -> Seq<ItemView>
    decreases s.len(),
{
    if s.len() == 0 || listed_not_after(s.last(), x) {
        s.push(x)
    } else {
        insert_item(s.drop_last(), x).push(s.last())
    }
}

/// The items in the order of the list; items that the order does not tell apart stay as they
/// were.
pub open spec fn listed(s: Seq<ItemView>) -> Seq<ItemView>
    decreases s.len(),
{
    if s.len() == 0 {
        Seq::empty()
    } else {
        insert_item(listed(s.drop_last()), s.last())
    }
}

/// The views of a run of items.
pub open spec fn views(s: Seq<DesktopItem>) -> Seq<ItemView> {
    s.map_values(|i: DesktopItem| i@)
}

/// Whether `a` does not come after `b` in the order of the list.
fn item_not_after(a: &DesktopItem, b: &DesktopItem) -> (r: bool)
    ensures
        r == listed_not_after(a@, b@),
{
    if same_text(a.kind.label(), b.kind.label()) {
        text_not_after(a.name.as_str(), b.name.as_str())
    } else {
        text_not_after(a.kind.label(), b.kind.label())
    }
}

/// An item that precedes all of `t` is inserted in front of it.
proof fn lemma_insert_before_tail(s: Seq<ItemView>, x: ItemView, pos: int)
    requires
        0 <= pos <= s.len(),
        forall|j: int| pos <= j < s.len() ==> !listed_not_after(#[trigger] s[j], x),
        pos > 0 ==> listed_not_after(s[pos - 1], x),
    ensures
        insert_item(s, x) == s.insert(pos, x),
    decreases s.len(),
{
    if pos == s.len() {
        assert(s.insert(pos, x) =~= s.push(x));
    } else {
        let t = s.drop_last();
        assert forall|j: int| pos <= j < t.len() implies !listed_not_after(#[trigger] t[j], x) by {
            assert(t[j] == s[j]);
        }
        lemma_insert_before_tail(t, x, pos);
        assert(!listed_not_after(s[s.len() - 1], x));
        assert(s.insert(pos, x) =~= t.insert(pos, x).push(s.last()));
    }
}

/// Puts one more item into a list.
fn insert_listed(list: &mut Vec<DesktopItem>, item: DesktopItem)
    ensures
        views(final(list)@) == insert_item(views(old(list)@), item@),
{
    let n: usize = list.len();
    let mut pos: usize = n;
    while pos > 0
        invariant_except_break
            pos <= n,
        invariant
            n == list@.len(),
            pos <= n,
            forall|j: int| pos <= j < n ==> !listed_not_after((#[trigger] list@[j])@, item@),
        ensures
            pos > 0 ==> listed_not_after(list@[pos - 1]@, item@),
        decreases pos,
    {
        if item_not_after(&list[pos - 1], &item) {
            break;
        }
        pos -= 1;
    }
    proof {
        let s = views(list@);
        assert forall|j: int| pos <= j < s.len() implies !listed_not_after(#[trigger] s[j], item@) by {
            assert(s[j] == list@[j]@);
        }
        lemma_insert_before_tail(s, item@, pos as int);
        assert(views(list@.insert(pos as int, item)) =~= s.insert(pos as int, item@));
    }
    list.insert(pos, item);
}

/// The entries that are not left out.
pub open spec fn kept_entries(entries: Seq<Entry>) -> Seq<Entry> {
    entries.filter(|e: Entry| !is_left_out(e.name@))
}

/// The items of the desktop, in the order of the list; none where a name has no displayed form.
pub fn scan_desktop(entries: &[Entry]) -> (r: Option<Vec<DesktopItem>>)
    ensures
        r is Some <==> forall|i: int|
            0 <= i < kept_entries(entries@).len() ==> is_presentable(#[trigger] kept_entries(entries@)[i]),
        r is Some ==> exists|items: Seq<ItemView>|
            {
                &&& items.len() == kept_entries(entries@).len()
                &&& forall|i: int|
                    0 <= i < items.len() ==> presents(#[trigger] items[i], kept_entries(entries@)[i])
                &&& views(r->0@) == #[trigger] listed(items)
            },
{
    let mut list: Vec<DesktopItem> = Vec::new();
    let ghost mut items: Seq<ItemView> = Seq::empty();
    let ghost keep = |e: Entry| !is_left_out(e.name@);
    let mut i: usize = 0;
    proof {
        reveal(Seq::filter);
        assert(views(list@) =~= listed(items));
        assert(entries@.take(0).filter(keep) =~= Seq::<Entry>::empty());
    }
    while i < entries.len()
        invariant
            i <= entries@.len(),
            keep == (|e: Entry| !is_left_out(e.name@)),
            items.len() == entries@.take(i as int).filter(keep).len(),
            forall|j: int|
                0 <= j < items.len() ==> presents(
                    #[trigger] items[j],
                    entries@.take(i as int).filter(keep)[j],
                ),
            forall|j: int|
                0 <= j < items.len() ==> is_presentable(
                    #[trigger] entries@.take(i as int).filter(keep)[j],
                ),
            views(list@) == listed(items),
        decreases entries@.len() - i,
    {
        let e: &Entry = &entries[i];
        let ghost before = entries@.take(i as int);
        proof {
            reveal(Seq::filter);
            assert(entries@.take(i + 1).drop_last() =~= before);
            assert(entries@.take(i + 1).last() == *e);
        }
        if !left_out(e.name.as_str()) {
            match present(e) {
                Some(item) => {
                    proof {
                        assert(items.push(item@).drop_last() =~= items);
                        items = items.push(item@);
                    }
                    insert_listed(&mut list, item);
                },
                None => {
                    proof {
                        lemma_filter_keeps(entries@, i as int, keep);
                        let kept = kept_entries(entries@);
                        assert(kept == entries@.filter(keep));
                        let j = choose|j: int| 0 <= j < kept.len() && #[trigger] kept[j] == *e;
                        assert(!is_presentable(kept[j]));
                    }
                    return None;
                },
            }
        }
        i += 1;
    }
    assert(entries@.take(entries@.len() as int) =~= entries@);
    Some(list)
}

/// An entry that passes the filter is among what the filter keeps.
proof fn lemma_filter_keeps(s: Seq<Entry>, i: int, keep: spec_fn(Entry) -> bool)
    requires
        0 <= i < s.len(),
        keep(s[i]),
    ensures
        exists|j: int| 0 <= j < s.filter(keep).len() && #[trigger] s.filter(keep)[j] == s[i],
    decreases s.len(),
{
    reveal(Seq::filter);
    let t = s.drop_last();
    if i < t.len() {
        lemma_filter_keeps(t, i, keep);
        let j = choose|j: int| 0 <= j < t.filter(keep).len() && #[trigger] t.filter(keep)[j] == t[i];
        assert(s.filter(keep)[j] == s[i]);
    } else {
        assert(s.filter(keep)[t.filter(keep).len() as int] == s[i]);
    }
}

/// The number of items of a kind.
pub open spec fn count_kind(items: Seq<DesktopItem>, kind: IconKind) -> int
    decreases items.len(),
{
    if items.len() == 0 {
        0
    } else {
        count_kind(items.drop_last(), kind) + if items.last().kind == kind {
            1int
        } else {
            0
        }
    }
}

/// The number of items of a kind.
fn number_of(items: &[DesktopItem], kind: IconKind) -> (r: usize)
    ensures
        r == count_kind(items@, kind),
{
    let mut n: usize = 0;
    let mut i: usize = 0;
    while i < items.len()
        invariant
            n <= i <= items@.len(),
            n == count_kind(items@.take(i as int), kind),
        decreases items@.len() - i,
    {
        assert(items@.take(i + 1).drop_last() =~= items@.take(i as int));
        if items[i].kind == kind {
            n += 1;
        }
        i += 1;
    }
    assert(items@.take(items@.len() as int) =~= items@);
    n
}

/// How many items there are of each kind.
pub fn count_by_kind(items: &[DesktopItem]) -> (r: [(IconKind, usize); 5])
    ensures
        r@ == seq![
            (IconKind::App, count_kind(items@, IconKind::App) as usize),
            (IconKind::Folder, count_kind(items@, IconKind::Folder) as usize),
            (IconKind::Document, count_kind(items@, IconKind::Document) as usize),
            (IconKind::Image, count_kind(items@, IconKind::Image) as usize),
            (IconKind::Other, count_kind(items@, IconKind::Other) as usize),
        ],
        forall|i: int|
            0 <= i < 5 ==> (#[trigger] r@[i]).1 as int == count_kind(items@, r@[i].0),
{
    let r = [
        (IconKind::App, number_of(items, IconKind::App)),
        (IconKind::Folder, number_of(items, IconKind::Folder)),
        (IconKind::Document, number_of(items, IconKind::Document)),
        (IconKind::Image, number_of(items, IconKind::Image)),
        (IconKind::Other, number_of(items, IconKind::Other)),
    ];
    assert(r@ =~= seq![
        (IconKind::App, count_kind(items@, IconKind::App) as usize),
        (IconKind::Folder, count_kind(items@, IconKind::Folder) as usize),
        (IconKind::Document, count_kind(items@, IconKind::Document) as usize),
        (IconKind::Image, count_kind(items@, IconKind::Image) as usize),
        (IconKind::Other, count_kind(items@, IconKind::Other) as usize),
    ]);
    r
}

/// Every item counts towards exactly one kind: the five counts add up to the number of items.
pub proof fn law_counts_add_up(items: Seq<DesktopItem>)
    ensures
        count_kind(items, IconKind::App) + count_kind(items, IconKind::Folder) + count_kind(
            items,
            IconKind::Document,
        ) + count_kind(items, IconKind::Image) + count_kind(items, IconKind::Other) == items.len(),
    decreases items.len(),
{
    if items.len() != 0 {
        law_counts_add_up(items.drop_last());
    }
}

/// Without one of its items, a list counts one less of the kind of that item.
proof fn lemma_count_without(items: Seq<DesktopItem>, j: int, kind: IconKind)
    requires
        0 <= j < items.len(),
    ensures
        count_kind(items, kind) == count_kind(items.remove(j), kind) + if items[j].kind == kind {
            1int
        } else {
            0
        },
    decreases items.len(),
{
    let t = items.drop_last();
    if j == items.len() - 1 {
        assert(items.remove(j) =~= t);
    } else {
        lemma_count_without(t, j, kind);
        assert(items.remove(j).drop_last() =~= t.remove(j));
        assert(items.remove(j).last() == items.last());
    }
}

/// The counts do not depend on the order of the items.
pub proof fn law_counts_do_not_depend_on_order(a: Seq<DesktopItem>, b: Seq<DesktopItem>, kind: IconKind)
    requires
        a.to_multiset() == b.to_multiset(),
    ensures
        count_kind(a, kind) == count_kind(b, kind),
    decreases a.len(),
{
    broadcast use vstd::seq_lib::group_to_multiset_ensures;

    assert(a.to_multiset().len() == a.len() && b.to_multiset().len() == b.len());
    if a.len() != 0 {
        let x = a.last();
        let i = a.len() - 1;
        assert(a.to_multiset().contains(x)) by {
            assert(a[i] == x);
            assert(a.contains(x));
        }
        assert(b.contains(x));
        let j = choose|j: int| 0 <= j < b.len() && b[j] == x;
        assert(a.remove(i) =~= a.drop_last());
        assert(a.remove(i).to_multiset() =~= a.to_multiset().remove(x));
        assert(b.remove(j).to_multiset() =~= b.to_multiset().remove(x));
        law_counts_do_not_depend_on_order(a.remove(i), b.remove(j), kind);
        lemma_count_without(a, i, kind);
        lemma_count_without(b, j, kind);
    }
}

/// No item of the list precedes one that stands before it.
pub open spec fn is_listed(s: Seq<ItemView>) -> bool {
    forall|i: int, j: int|
        0 <= i < j < s.len() ==> listed_not_after(#[trigger] s[i], #[trigger] s[j])
}

proof fn lemma_listed_order(a: ItemView, b: ItemView, c: ItemView)
    ensures
        listed_not_after(a, b) || listed_not_after(b, a),
        listed_not_after(a, b) && listed_not_after(b, c) ==> listed_not_after(a, c),
{
    crate::text::lemma_order_total(a.name, b.name);
    crate::text::lemma_order_total(label_text(a.kind), label_text(b.kind));
    if listed_not_after(a, b) && listed_not_after(b, c) {
        if label_text(a.kind) == label_text(b.kind) && label_text(b.kind) == label_text(c.kind) {
            crate::text::lemma_order_transitive(a.name, b.name, c.name);
        } else if label_text(a.kind) == label_text(c.kind) {
            crate::text::lemma_order_antisymmetric(label_text(a.kind), label_text(b.kind));
        } else if label_text(a.kind) != label_text(b.kind) && label_text(b.kind) != label_text(c.kind) {
            crate::text::lemma_order_transitive(
                label_text(a.kind),
                label_text(b.kind),
                label_text(c.kind),
            );
        }
    }
}

proof fn lemma_insert_item(s: Seq<ItemView>, x: ItemView)
    requires
        is_listed(s),
    ensures
        is_listed(insert_item(s, x)),
        insert_item(s, x).to_multiset() == s.to_multiset().insert(x),
        forall|i: int|
            0 <= i < insert_item(s, x).len() ==> (#[trigger] insert_item(s, x)[i]) == x || s.contains(
                insert_item(s, x)[i],
            ),
    decreases s.len(),
{
    broadcast use vstd::seq_lib::group_to_multiset_ensures;

    let r = insert_item(s, x);
    if s.len() == 0 {
    } else if listed_not_after(s.last(), x) {
        assert forall|i: int, j: int| 0 <= i < j < r.len() implies listed_not_after(
            #[trigger] r[i],
            #[trigger] r[j],
        ) by {
            if j == s.len() && i < s.len() - 1 {
                lemma_listed_order(s[i], s.last(), x);
            }
        }
        assert forall|i: int| 0 <= i < r.len() implies (#[trigger] r[i]) == x || s.contains(r[i]) by {
            if i < s.len() {
                assert(s[i] == r[i]);
            }
        }
    } else {
        let t = s.drop_last();
        let u = insert_item(t, x);
        lemma_insert_item(t, x);
        lemma_listed_order(s.last(), x, x);
        assert forall|i: int, j: int| 0 <= i < j < r.len() implies listed_not_after(
            #[trigger] r[i],
            #[trigger] r[j],
        ) by {
            if j < u.len() {
                assert(r[i] == u[i] && r[j] == u[j]);
            } else {
                assert(r[i] == u[i]);
                if u[i] != x {
                    let k = choose|k: int| 0 <= k < t.len() && t[k] == u[i];
                    assert(s[k] == u[i]);
                }
            }
        }
        assert forall|i: int| 0 <= i < r.len() implies (#[trigger] r[i]) == x || s.contains(r[i]) by {
            if i < u.len() {
                assert(r[i] == u[i]);
                if u[i] != x {
                    let k = choose|k: int| 0 <= k < t.len() && t[k] == u[i];
                    assert(s[k] == u[i]);
                }
            } else {
                assert(s[s.len() - 1] == r[i]);
            }
        }
        assert(s =~= t.push(s.last()));
        assert(r.to_multiset() =~= s.to_multiset().insert(x));
    }
}

/// The list holds the same items as were found, each as often, in the order of the list.
pub proof fn law_list_is_sorted(s: Seq<ItemView>)
    ensures
        is_listed(listed(s)),
        listed(s).to_multiset() == s.to_multiset(),
    decreases s.len(),
{
    broadcast use vstd::seq_lib::group_to_multiset_ensures;

    if s.len() != 0 {
        law_list_is_sorted(s.drop_last());
        lemma_insert_item(listed(s.drop_last()), s.last());
        assert(s =~= s.drop_last().push(s.last()));
    } else {
        assert(listed(s) =~= s);
    }
}

/// The encoding of a text in two parts, with a character boundary between them.
proof fn lemma_encode_parts(a: Seq<char>, b: Seq<char>)
    ensures
        vstd::utf8::encode_utf8(a + b) == vstd::utf8::encode_utf8(a) + vstd::utf8::encode_utf8(b),
        vstd::utf8::is_char_boundary(
            vstd::utf8::encode_utf8(a + b),
            vstd::utf8::encode_utf8(a).len() as int,
        ),
    decreases a.len(),
{
    broadcast use vstd::utf8::encode_utf8_valid_utf8;

    let bytes = vstd::utf8::encode_utf8(a + b);
    if a.len() == 0 {
        assert(a + b =~= b);
    } else {
        let t = a.drop_first();
        lemma_encode_parts(t, b);
        assert((a + b).drop_first() =~= t + b);
        vstd::utf8::encode_utf8_first_scalar(a + b);
        assert(vstd::utf8::pop_first_scalar(bytes) =~= vstd::utf8::encode_utf8(t + b));
        assert(bytes =~= vstd::utf8::encode_utf8(a) + vstd::utf8::encode_utf8(b));
    }
}

/// A file name with an ASCII suffix of an application is displayed without that suffix.
pub proof fn law_suffix_is_dropped(
    shown: Seq<char>,
    stem: Seq<char>,
    suffix: Seq<char>,
    lower: Seq<char>,
)
    requires
        vstd::utf8::is_ascii_chars(suffix),
        suffix.len() == app_suffix_len(lower),
    ensures
        cut_is_clean(stem + suffix, lower, IconKind::App),
        is_display_name(shown, stem + suffix, lower, IconKind::App) <==> shown == stem,
{
    broadcast use vstd::utf8::encode_utf8_decode_utf8;

    let bytes = vstd::utf8::encode_utf8(stem + suffix);
    lemma_encode_parts(stem, suffix);
    vstd::utf8::is_ascii_chars_encode_utf8(suffix);
    assert(bytes.subrange(0, vstd::utf8::encode_utf8(stem).len() as int)
        =~= vstd::utf8::encode_utf8(stem));
    assert(vstd::utf8::decode_utf8(vstd::utf8::encode_utf8(shown)) == shown);
    assert(vstd::utf8::decode_utf8(vstd::utf8::encode_utf8(stem)) == stem);
}

/// An ASCII name has a displayed form, whatever its kind.
pub proof fn law_ascii_names_have_a_form(name: Seq<char>, kind: IconKind)
    requires
        vstd::utf8::is_ascii_chars(name),
    ensures
        cut_is_clean(name, lower_form(name), kind),
{
    let lower = lower_form(name);
    if kind == IconKind::App {
        let n = app_suffix_len(lower);
        assert(lower.len() == name.len());
        reveal_strlit(".lnk");
        reveal_strlit(".exe");
        reveal_strlit(".appref-ms");
        let stem = name.take(name.len() - n);
        let suffix = name.skip(name.len() - n);
        assert(stem + suffix =~= name);
        assert(vstd::utf8::is_ascii_chars(suffix));
        law_suffix_is_dropped(stem, stem, suffix, lower);
    } else {
        law_other_names_are_kept(name, name, lower, kind);
    }
}

/// A name that is not an application's is displayed as it is.
pub proof fn law_other_names_are_kept(shown: Seq<char>, name: Seq<char>, lower: Seq<char>, kind: IconKind)
    requires
        kind != IconKind::App,
    ensures
        cut_is_clean(name, lower, kind),
        is_display_name(shown, name, lower, kind) <==> shown == name,
{
    lemma_whole_name(shown, name);
}

proof fn lemma_whole_name(shown: Seq<char>, name: Seq<char>)
    ensures
        vstd::utf8::is_char_boundary(
            vstd::utf8::encode_utf8(name),
            vstd::utf8::encode_utf8(name).len() as int,
        ),
        vstd::utf8::encode_utf8(shown) == vstd::utf8::encode_utf8(name).subrange(
            0,
            vstd::utf8::encode_utf8(name).len() as int,
        ) <==> shown == name,
{
    broadcast use vstd::utf8::encode_utf8_decode_utf8;

    lemma_encode_parts(name, Seq::empty());
    assert(name + Seq::<char>::empty() =~= name);
    let bytes = vstd::utf8::encode_utf8(name);
    assert(bytes.subrange(0, bytes.len() as int) =~= bytes);
    assert(vstd::utf8::decode_utf8(vstd::utf8::encode_utf8(shown)) == shown);
    assert(vstd::utf8::decode_utf8(bytes) == name);
}

/// The items that the order does not tell apart from `x`.
pub open spec fn ties(s: Seq<ItemView>, x: ItemView) -> Seq<ItemView> {
    s.filter(|y: ItemView| listed_not_after(x, y) && listed_not_after(y, x))
}

proof fn lemma_insert_keeps_ties(s: Seq<ItemView>, y: ItemView, x: ItemView)
    ensures
        ties(insert_item(s, y), x) == ties(s.push(y), x),
    decreases s.len(),
{
    reveal(Seq::filter);
    if s.len() == 0 || listed_not_after(s.last(), y) {
    } else {
        let t = s.drop_last();
        lemma_insert_keeps_ties(t, y, x);
        let p = |z: ItemView| listed_not_after(x, z) && listed_not_after(z, x);
        let r = insert_item(s, y);
        assert(r.drop_last() =~= insert_item(t, y));
        assert(t.push(y).drop_last() =~= t);
        assert(s.push(y).drop_last() =~= s);
        // Not both of the two that change places are tied with `x`.
        lemma_listed_order(s.last(), x, y);
        assert(!(p(s.last()) && p(y)));
        let u = insert_item(t, y);
        assert(s.filter(p) == if p(s.last()) { t.filter(p).push(s.last()) } else { t.filter(p) });
        assert(s.push(y).filter(p) == if p(y) { s.filter(p).push(y) } else { s.filter(p) });
        assert(t.push(y).filter(p) == if p(y) { t.filter(p).push(y) } else { t.filter(p) });
        assert(r.filter(p) == if p(s.last()) { u.filter(p).push(s.last()) } else { u.filter(p) });
    }
}

/// Items that the order does not tell apart are listed in the order they were found in.
pub proof fn law_list_is_stable(s: Seq<ItemView>, x: ItemView)
    ensures
        ties(listed(s), x) == ties(s, x),
    decreases s.len(),
{
    reveal(Seq::filter);
    if s.len() != 0 {
        let t = s.drop_last();
        law_list_is_stable(t, x);
        lemma_insert_keeps_ties(listed(t), s.last(), x);
        assert(listed(t).push(s.last()).drop_last() =~= listed(t));
    } else {
        assert(listed(s) =~= s);
    }
}

} // verus!
