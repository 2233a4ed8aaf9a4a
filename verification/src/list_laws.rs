//! What the list of the desktop is for: which entries are on it, of what kind, under what name, and in what
//! order.
use vstd::prelude::*;
use crate::scanner::{
    app_suffix_len, count_kind, cut_is_clean, entry_kind, is_display_name, is_left_out, kept_entries,
    kind_of_extension, label_text, law_list_is_sorted, law_suffix_is_dropped, law_other_names_are_kept, listed,
    lower_form, presents, DesktopItem, Entry, IconKind, ItemView,
};
use crate::text::{ascii_lower, digit, digits, not_after, padded_hex, same_but_case};

verus! {

/// One text comes before another, character by character: it is the beginning of it, or has the lesser
/// character where they first differ.
pub open spec fn comes_first(a: Seq<char>, b: Seq<char>) -> bool {
    ||| a.is_prefix_of(b)
    ||| exists|k: int| #[trigger] differ_first_at(a, b, k) && a[k] < b[k]
}

/// Two texts agree up to `k` and differ there.
pub open spec fn differ_first_at(a: Seq<char>, b: Seq<char>, k: int) -> bool {
    0 <= k < a.len() && k < b.len() && a[k] != b[k] && forall|i: int| 0 <= i < k ==> a[i] == b[i]
}

/// The order of texts is that of their characters, from the first on.
pub proof fn law_texts_are_ordered_by_their_characters(a: Seq<char>, b: Seq<char>)
    ensures
        not_after(a, b) <==> comes_first(a, b),
    decreases a.len(),
{
    if a.len() == 0 {
        assert(a.is_prefix_of(b)) by {
            assert(b.subrange(0, 0) =~= a);
        }
    } else if b.len() == 0 {
    } else if a[0] != b[0] {
        assert(differ_first_at(a, b, 0));
        if a.is_prefix_of(b) {
            assert(b.subrange(0, a.len() as int)[0] == b[0]);
        }
        if exists|k: int| #[trigger] differ_first_at(a, b, k) && a[k] < b[k] {
            let k = choose|k: int| #[trigger] differ_first_at(a, b, k) && a[k] < b[k];
            assert(k == 0);
        }
    } else {
        let c = a.drop_first();
        let d = b.drop_first();
        law_texts_are_ordered_by_their_characters(c, d);
        if c.is_prefix_of(d) {
            assert forall|i: int| 0 <= i < a.len() implies a[i] == b[i] by {
                if i > 0 {
                    assert(c[i - 1] == d.subrange(0, c.len() as int)[i - 1]);
                }
            }
            assert(b.subrange(0, a.len() as int) =~= a);
        }
        if a.is_prefix_of(b) {
            assert forall|i: int| 0 <= i < c.len() implies c[i] == d[i] by {
                assert(a[i + 1] == b.subrange(0, a.len() as int)[i + 1]);
            }
            assert(d.subrange(0, c.len() as int) =~= c);
        }
        if exists|k: int| #[trigger] differ_first_at(c, d, k) && c[k] < d[k] {
            let k = choose|k: int| #[trigger] differ_first_at(c, d, k) && c[k] < d[k];
            assert forall|i: int| 0 <= i < k + 1 implies a[i] == b[i] by {
                if i > 0 {
                    assert(c[i - 1] == d[i - 1]);
                }
            }
            assert(differ_first_at(a, b, k + 1));
        }
        if exists|k: int| #[trigger] differ_first_at(a, b, k) && a[k] < b[k] {
            let k = choose|k: int| #[trigger] differ_first_at(a, b, k) && a[k] < b[k];
            assert(k > 0);
            assert forall|i: int| 0 <= i < k - 1 implies c[i] == d[i] by {
                assert(a[i + 1] == b[i + 1]);
            }
            assert(differ_first_at(c, d, k - 1));
        }
    }
}

/// The list goes by the labels of the kinds, and within a kind by the names of the files; it holds exactly
/// the items that were found.
pub proof fn law_the_list_goes_by_kind_and_name(s: Seq<ItemView>, i: int, j: int)
    requires
        0 <= i < j < listed(s).len(),
    ensures
        listed(s)[i].kind == listed(s)[j].kind ==> comes_first(listed(s)[i].name, listed(s)[j].name),
        listed(s)[i].kind != listed(s)[j].kind ==> comes_first(
            label_text(listed(s)[i].kind),
            label_text(listed(s)[j].kind),
        ) && label_text(listed(s)[i].kind) != label_text(listed(s)[j].kind),
        listed(s).to_multiset() == s.to_multiset(),
{
    law_list_is_sorted(s);
    let a = listed(s)[i];
    let b = listed(s)[j];
    crate::scanner::law_labels_are_distinct(a.kind, b.kind);
    law_texts_are_ordered_by_their_characters(a.name, b.name);
    law_texts_are_ordered_by_their_characters(label_text(a.kind), label_text(b.kind));
}

/// A capital ASCII letter has its small one, thirty-two further on; every other character stays.
pub proof fn law_small_letters(c: char)
    ensures
        65 <= c as u32 <= 90 ==> ascii_lower(c) as u32 == c as u32 + 32,
        !(65 <= c as u32 <= 90) ==> ascii_lower(c) == c,
{
}

/// An entry is left out if and only if its name begins with a dot, or is that of the settings of the folder,
/// in any case.
pub proof fn law_what_is_left_out(name: Seq<char>)
    ensures
        is_left_out(name) <==> (name.len() > 0 && name[0] == '.') || (name.len() == 11 && forall|i: int|
            0 <= i < 11 ==> ascii_lower(#[trigger] name[i]) == "desktop.ini"@[i]),
{
    reveal_strlit(".");
    reveal_strlit("desktop.ini");
    let d = "desktop.ini"@;
    if name.len() > 0 && name[0] == '.' {
        assert(name.subrange(0, 1) =~= "."@);
    }
    if "."@.is_prefix_of(name) {
        assert(name.subrange(0, 1)[0] == name[0]);
    }
    assert forall|i: int| 0 <= i < 11 implies ascii_lower(#[trigger] d[i]) == d[i] by {}
    if same_but_case(name, d) {
        assert forall|i: int| 0 <= i < 11 implies ascii_lower(#[trigger] name[i]) == d[i] by {
            assert(ascii_lower(name[i]) == ascii_lower(d[i]));
        }
    }
    if name.len() == 11 && forall|i: int| 0 <= i < 11 ==> ascii_lower(#[trigger] name[i]) == d[i] {
        assert forall|i: int| 0 <= i < 11 implies ascii_lower(#[trigger] name[i]) == ascii_lower(d[i]) by {}
        assert(same_but_case(name, d));
    }
}

/// Every entry that is not left out is kept, and no other, in the order in which they came.
pub proof fn law_entries_are_kept(entries: Seq<Entry>, e: Entry)
    ensures
        kept_entries(entries).contains(e) <==> entries.contains(e) && !is_left_out(e.name@),
    decreases entries.len(),
{
    let keep = |e: Entry| !is_left_out(e.name@);
    reveal(Seq::filter);
    if entries.len() > 0 {
        let t = entries.drop_last();
        let last = entries.last();
        law_entries_are_kept(t, e);
        let before = kept_entries(t);
        let now = kept_entries(entries);
        if entries.contains(e) {
            let i = choose|i: int| 0 <= i < entries.len() && entries[i] == e;
            if i < t.len() {
                assert(t[i] == e);
            }
        }
        if t.contains(e) {
            let i = choose|i: int| 0 <= i < t.len() && t[i] == e;
            assert(entries[i] == e);
        }
        assert(entries[entries.len() - 1] == last);
        if keep(last) {
            assert(now == before.push(last));
            assert(now[before.len() as int] == last);
            if before.contains(e) {
                let i = choose|i: int| 0 <= i < before.len() && before[i] == e;
                assert(now[i] == e);
            }
            if now.contains(e) {
                let i = choose|i: int| 0 <= i < now.len() && now[i] == e;
                if i < before.len() {
                    assert(before[i] == e);
                }
            }
        } else {
            assert(now == before);
        }
    }
}

/// A folder is a folder, whatever its name; a file is none.
pub proof fn law_folders_are_folders(e: Entry)
    ensures
        e.is_dir <==> entry_kind(e) == IconKind::Folder,
{
}

/// The extensions of applications.
pub open spec fn app_extensions() -> Seq<Seq<char>> {
    seq!["lnk"@, "exe"@, "appref-ms"@]
}

/// The extensions of documents.
pub open spec fn document_extensions() -> Seq<Seq<char>> {
    seq!["doc"@, "docx"@, "pdf"@, "txt"@, "xls"@, "xlsx"@, "ppt"@, "pptx"@, "md"@, "csv"@]
}

/// The extensions of images.
pub open spec fn image_extensions() -> Seq<Seq<char>> {
    seq!["png"@, "jpg"@, "jpeg"@, "gif"@, "bmp"@, "webp"@, "ico"@]
}

/// A file is an application, a document or an image if and only if its extension is one of those; any other
/// file is of the other kind, and none is a folder.
pub proof fn law_kinds_go_by_the_extension(ext: Seq<char>)
    ensures
        kind_of_extension(ext) == IconKind::App <==> app_extensions().contains(ext),
        kind_of_extension(ext) == IconKind::Document <==> document_extensions().contains(ext),
        kind_of_extension(ext) == IconKind::Image <==> image_extensions().contains(ext),
        kind_of_extension(ext) == IconKind::Other <==> !app_extensions().contains(ext)
            && !document_extensions().contains(ext) && !image_extensions().contains(ext),
        kind_of_extension(ext) != IconKind::Folder,
{
    let a = app_extensions();
    let d = document_extensions();
    let i = image_extensions();
    assert(a[0] == "lnk"@ && a[1] == "exe"@ && a[2] == "appref-ms"@);
    assert(d[0] == "doc"@ && d[1] == "docx"@ && d[2] == "pdf"@ && d[3] == "txt"@ && d[4] == "xls"@ && d[5]
        == "xlsx"@ && d[6] == "ppt"@ && d[7] == "pptx"@ && d[8] == "md"@ && d[9] == "csv"@);
    assert(i[0] == "png"@ && i[1] == "jpg"@ && i[2] == "jpeg"@ && i[3] == "gif"@ && i[4] == "bmp"@ && i[5]
        == "webp"@ && i[6] == "ico"@);
    lemma_extensions_are_distinct(ext);
}

/// No extension is of two kinds.
proof fn lemma_extensions_are_distinct(ext: Seq<char>)
    ensures
        !(app_extensions().contains(ext) && document_extensions().contains(ext)),
        !(app_extensions().contains(ext) && image_extensions().contains(ext)),
        !(document_extensions().contains(ext) && image_extensions().contains(ext)),
{
    reveal_strlit("lnk");
    reveal_strlit("exe");
    reveal_strlit("appref-ms");
    reveal_strlit("doc");
    reveal_strlit("docx");
    reveal_strlit("pdf");
    reveal_strlit("txt");
    reveal_strlit("xls");
    reveal_strlit("xlsx");
    reveal_strlit("ppt");
    reveal_strlit("pptx");
    reveal_strlit("md");
    reveal_strlit("csv");
    reveal_strlit("png");
    reveal_strlit("jpg");
    reveal_strlit("jpeg");
    reveal_strlit("gif");
    reveal_strlit("bmp");
    reveal_strlit("webp");
    reveal_strlit("ico");
    // Applications begin with `l`, `e` or `a`, images are told from documents by their first two letters.
    if app_extensions().contains(ext) {
        assert(ext[0] == 'l' || ext[0] == 'e' || ext[0] == 'a');
    }
    if document_extensions().contains(ext) {
        assert(ext[0] == 'd' || ext[0] == 'p' || ext[0] == 't' || ext[0] == 'x' || ext[0] == 'm' || ext[0]
            == 'c');
        assert(ext[0] == 'p' ==> ext[1] == 'd' || ext[1] == 'p');
    }
    if image_extensions().contains(ext) {
        assert(ext[0] == 'p' || ext[0] == 'j' || ext[0] == 'g' || ext[0] == 'b' || ext[0] == 'w' || ext[0]
            == 'i');
        assert(ext[0] == 'p' ==> ext[1] == 'n');
    }
}

/// A suffix of an application, in any case.
pub open spec fn is_app_suffix(s: Seq<char>) -> bool {
    same_but_case(s, ".lnk"@) || same_but_case(s, ".exe"@) || same_but_case(s, ".appref-ms"@)
}

/// The name of an application in ASCII that ends in the suffix of one, in any case, is displayed without that
/// suffix.
pub proof fn law_applications_are_shown_without_suffix(stem: Seq<char>, suffix: Seq<char>, shown: Seq<char>)
    requires
        vstd::utf8::is_ascii_chars(stem + suffix),
        is_app_suffix(suffix),
    ensures
        is_display_name(shown, stem + suffix, lower_form(stem + suffix), IconKind::App) <==> shown == stem,
        cut_is_clean(stem + suffix, lower_form(stem + suffix), IconKind::App),
{
    reveal_strlit(".lnk");
    reveal_strlit(".exe");
    reveal_strlit(".appref-ms");
    let name = stem + suffix;
    let lower = lower_form(name);
    let n = suffix.len() as int;
    let tail = if same_but_case(suffix, ".lnk"@) {
        ".lnk"@
    } else if same_but_case(suffix, ".exe"@) {
        ".exe"@
    } else {
        ".appref-ms"@
    };
    assert(same_but_case(suffix, tail));
    assert forall|i: int| 0 <= i < n implies ascii_lower(#[trigger] tail[i]) == tail[i] by {}
    assert(lower.len() == name.len());
    assert forall|i: int| 0 <= i < n implies #[trigger] lower[stem.len() + i] == tail[i] by {
        assert(name[stem.len() + i] == suffix[i]);
        assert(ascii_lower(suffix[i]) == ascii_lower(tail[i]));
    }
    assert(lower.subrange(lower.len() - n, lower.len() as int) =~= tail);
    assert(tail.is_suffix_of(lower));
    if n == 10 {
        // A name that ends in the long suffix ends in neither of the short ones.
        assert(lower.last() == lower[stem.len() + 9int]);
        assert(lower.last() == 's');
        if ".lnk"@.is_suffix_of(lower) {
            assert(lower.subrange(lower.len() - 4, lower.len() as int)[3] == lower.last());
        }
        if ".exe"@.is_suffix_of(lower) {
            assert(lower.subrange(lower.len() - 4, lower.len() as int)[3] == lower.last());
        }
    }
    assert(app_suffix_len(lower) == n);
    assert(vstd::utf8::is_ascii_chars(suffix)) by {
        assert forall|i: int| 0 <= i < suffix.len() implies '\0' <= #[trigger] suffix[i] <= '\u{7f}' by {
            assert(name[stem.len() + i] == suffix[i]);
        }
    }
    law_suffix_is_dropped(shown, stem, suffix, lower);
}

/// A name whose lower-case form ends in no suffix of an application is displayed as it is, and so is every
/// name of another kind.
pub proof fn law_other_names_are_shown_whole(name: Seq<char>, lower: Seq<char>, kind: IconKind, shown: Seq<char>)
    requires
        kind != IconKind::App || (!".lnk"@.is_suffix_of(lower) && !".exe"@.is_suffix_of(lower)
            && !".appref-ms"@.is_suffix_of(lower)),
    ensures
        is_display_name(shown, name, lower, kind) <==> shown == name,
{
    law_other_names_are_kept(shown, name, lower, IconKind::Other);
}

/// An item tells its entry: the name, the path and the icon are those of the entry, and so is the kind.
pub proof fn law_items_tell_their_entry(item: ItemView, e: Entry)
    requires
        presents(item, e),
    ensures
        item.name == e.name@,
        item.path == e.path@,
        item.icon == e.icon,
        e.is_dir ==> item.kind == IconKind::Folder && item.display_name == e.name@,
        !e.is_dir ==> item.kind == kind_of_extension(lower_form(e.extension@)),
{
    law_folders_are_folders(e);
    if e.is_dir {
        law_other_names_are_shown_whole(e.name@, lower_form(e.name@), IconKind::Folder, item.display_name);
    }
}

/// The count of a kind is the number of items of that kind.
pub proof fn law_counts_are_numbers_of_items(items: Seq<DesktopItem>, kind: IconKind)
    ensures
        count_kind(items, kind) == items.filter(|i: DesktopItem| i.kind == kind).len(),
    decreases items.len(),
{
    reveal(Seq::filter);
    if items.len() > 0 {
        law_counts_are_numbers_of_items(items.drop_last(), kind);
    }
}

/// The digits of a number read back give the number, in any base up to sixteen.
pub open spec fn read_back(s: Seq<char>, base: int) -> int
    decreases s.len(),
{
    if s.len() == 0 {
        0
    } else {
        let c = s.last() as u32 as int;
        base * read_back(s.drop_last(), base) + if c < 65 {
            c - 48
        } else {
            c - 55
        }
    }
}

/// A numeral stands for its number: read back digit by digit it gives that number, and so two numbers have
/// different numerals.
pub proof fn law_numerals_stand_for_their_numbers(n: int, base: int)
    requires
        0 <= n,
        2 <= base <= 16,
    ensures
        read_back(digits(n, base), base) == n,
        digits(n, base).len() > 0,
    decreases n,
{
    if n < base {
        assert(digits(n, base).drop_last() =~= Seq::<char>::empty());
        assert(read_back(digits(n, base).drop_last(), base) == 0);
        assert(base * 0 == 0);
    } else {
        vstd::arithmetic::div_mod::lemma_div_decreases(n, base);
        vstd::arithmetic::div_mod::lemma_fundamental_div_mod(n, base);
        vstd::arithmetic::div_mod::lemma_mod_bound(n, base);
        vstd::arithmetic::div_mod::lemma_div_pos_is_pos(n, base);
        law_numerals_stand_for_their_numbers(n / base, base);
        assert(digits(n, base).drop_last() =~= digits(n / base, base));
    }
}

/// A number in hexadecimal digits, filled up with zeros, stands for that number, and has no fewer digits than
/// asked for.
pub proof fn law_hexadecimals_stand_for_their_numbers(n: int, width: int)
    requires
        0 <= n,
        0 <= width,
    ensures
        read_back(padded_hex(n, width), 16) == n,
        padded_hex(n, width).len() >= width,
{
    law_numerals_stand_for_their_numbers(n, 16);
    let d = digits(n, 16);
    if d.len() < width {
        let zeros = Seq::new((width - d.len()) as nat, |i: int| '0');
        lemma_zeros_in_front(zeros, d);
    }
}

/// Zeros in front change no number.
proof fn lemma_zeros_in_front(zeros: Seq<char>, s: Seq<char>)
    requires
        forall|i: int| 0 <= i < zeros.len() ==> zeros[i] == '0',
    ensures
        read_back(zeros + s, 16) == read_back(s, 16),
    decreases s.len(), zeros.len(),
{
    if s.len() > 0 {
        lemma_zeros_in_front(zeros, s.drop_last());
        assert((zeros + s).drop_last() =~= zeros + s.drop_last());
    } else if zeros.len() > 0 {
        lemma_zeros_in_front(zeros.drop_last(), s);
        assert((zeros + s).drop_last() =~= zeros.drop_last() + s);
        assert((zeros + s).last() == '0');
    } else {
        assert(zeros + s =~= s);
    }
}

} // verus!
