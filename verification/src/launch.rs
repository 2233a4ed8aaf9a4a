//! The edges of the program: how it is started, how messages carry numbers, and what it reports.
use vstd::prelude::*;
use vstd::string::*;
use crate::layout::{classify, kind_at, kind_title, positions, Card};
use crate::scanner::{count_by_kind, count_kind, label_text, DesktopItem, IconKind};
use crate::text::{chars_of, decimal, digit, digits, same_text, same_text_but_case, same_but_case};

verus! {

/// What the program is started for: to uninstall itself, to look after another process and to bring
/// the icons of the desktop back when that one ends, or to run.
#[derive(Clone, Copy, Debug, PartialEq, Eq, Structural)]
pub enum Mode {
    Uninstall,
    Watchdog(u32),
    Run,
}

/// A decimal digit.
pub open spec fn is_digit(c: char) -> bool {
    '0' <= c <= '9'
}

/// The number that decimal digits stand for.
pub open spec fn value_of(s: Seq<char>) -> int
    decreases s.len(),
{
    if s.len() == 0 {
        0
    } else {
        10 * value_of(s.drop_last()) + (s.last() as u32 - '0' as u32)
    }
}

/// The digits of a numeral: all of it, but for a plus sign in front.
pub open spec fn digit_part(s: Seq<char>) -> Seq<char> {
    if s.len() > 0 && s[0] == '+' {
        s.skip(1)
    } else {
        s
    }
}

/// The number that a text stands for, where it is one of 32 bits: digits, at least one, with a plus
/// sign in front or without.
pub open spec fn number_in(s: Seq<char>) -> Option<u32> {
    let d = digit_part(s);
    if d.len() > 0 && (forall|i: int| 0 <= i < d.len() ==> is_digit(#[trigger] d[i])) && value_of(d)
        <= u32::MAX {
        Some(value_of(d) as u32)
    } else {
        None
    }
}

/// Further digits make no number smaller.
pub proof fn lemma_value_grows(s: Seq<char>, k: int)
    requires
        0 <= k <= s.len(),
        forall|i: int| 0 <= i < s.len() ==> is_digit(#[trigger] s[i]),
    ensures
        0 <= value_of(s.take(k)) <= value_of(s),
    decreases s.len(),
{
    if k == s.len() {
        assert(s.take(k) =~= s);
        if k > 0 {
            assert(is_digit(s.last()));
            lemma_value_grows(s.drop_last(), k - 1);
            assert(s.drop_last().take(k - 1) =~= s.drop_last());
        }
    } else {
        assert(is_digit(s.last()));
        lemma_value_grows(s.drop_last(), k);
        assert(s.drop_last().take(k) =~= s.take(k));
    }
}

/// The number that a text stands for.
pub fn parse_number(s: &str) -> (r: Option<u32>)
    ensures
        r == number_in(s@),
{
    let v: Vec<char> = chars_of(s);
    let n: usize = v.len();
    let start: usize = if n > 0 && v[0] == '+' {
        1
    } else {
        0
    };
    let ghost d = digit_part(s@);
    assert(d =~= v@.skip(start as int));
    if start == n {
        return None;
    }
    let mut i: usize = start;
    let mut acc: u64 = 0;
    while i < n
        invariant
            v@ == s@,
            n == v@.len(),
            d == digit_part(s@),
            d == v@.skip(start as int),
            start <= i <= n,
            start < n,
            forall|k: int| 0 <= k < i - start ==> is_digit(#[trigger] d[k]),
            acc == value_of(d.take(i - start)),
            acc <= u32::MAX,
        decreases n - i,
    {
        let c: char = v[i];
        assert(d[i - start] == c);
        if c < '0' || c > '9' {
            assert(!is_digit(d[i - start]));
            return None;
        }
        let digit: u64 = c as u64 - '0' as u64;
        assert(d.take(i - start + 1).drop_last() =~= d.take(i - start));
        acc = 10 * acc + digit;
        i += 1;
        assert(acc == value_of(d.take(i - start)));
        if acc > u32::MAX as u64 {
            proof {
                if forall|k: int| 0 <= k < d.len() ==> is_digit(#[trigger] d[k]) {
                    lemma_value_grows(d, i - start);
                }
            }
            return None;
        }
    }
    assert(d.take(d.len() as int) =~= d);
    Some(acc as u32)
}

/// What the program is started for, by its arguments; the first of them is its own name. A number that
/// cannot be read counts as zero.
pub open spec fn mode_of(args: Seq<Seq<char>>) -> Mode {
    if args.len() >= 2 && args[1] == "--uninstall"@ {
        Mode::Uninstall
    } else if args.len() >= 3 && args[1] == "--watchdog"@ {
        Mode::Watchdog(
            match number_in(args[2]) {
                Some(pid) => pid,
                None => 0,
            },
        )
    } else {
        Mode::Run
    }
}

/// What the program is started for.
pub fn start_mode(args: &[String]) -> (r: Mode)
    ensures
        r == mode_of(args@.map_values(|s: String| s@)),
{
    if args.len() >= 2 && same_text(args[1].as_str(), "--uninstall") {
        return Mode::Uninstall;
    }
    if args.len() >= 3 && same_text(args[1].as_str(), "--watchdog") {
        let pid: u32 = match parse_number(args[2].as_str()) {
            Some(pid) => pid,
            None => 0,
        };
        return Mode::Watchdog(pid);
    }
    Mode::Run
}

/// The arguments with which a process is looked after.
pub fn watchdog_args(pid: u32) -> (r: (String, String))
    ensures
        r.0@ == "--watchdog"@,
        r.1@ == digits(pid as int, 10),
{
    ("--watchdog".to_owned(), decimal(pid as u128))
}

/// The command that starts the program with the system: its path, in quotes.
pub fn start_command(path: &str) -> (r: String)
    ensures
        r@ == "\""@ + path@ + "\""@,
{
    let mut s: String = "\"".to_owned();
    s.append(path);
    s.append("\"");
    s
}

/// The number that sixteen bits stand for, with a sign.
pub open spec fn signed_half(v: int) -> int {
    if v < 0x8000 {
        v
    } else {
        v - 0x1_0000
    }
}

/// The number that sixteen bits stand for, with a sign.
fn signed(v: u32) -> (r: i32)
    requires
        v < 0x1_0000,
    ensures
        r == signed_half(v as int),
{
    if v < 0x8000 {
        v as i32
    } else {
        v as i32 - 0x1_0000
    }
}

/// The first coordinate that a message carries, in its lower half.
pub fn lparam_x(word: u32) -> (r: i32)
    ensures
        r == signed_half(word as int % 0x1_0000),
{
    signed(word % 0x1_0000)
}

/// The second coordinate that a message carries, in its upper half.
pub fn lparam_y(word: u32) -> (r: i32)
    ensures
        r == signed_half(word as int / 0x1_0000),
{
    signed(word / 0x1_0000)
}

/// The turn of the wheel that a message carries, in its upper half.
pub fn wheel_delta(word: u32) -> (r: i16)
    ensures
        r == signed_half(word as int / 0x1_0000),
{
    signed(word / 0x1_0000) as i16
}

/// The first and the last number of the commands of the menu of the desktop.
pub const CMD_FIRST: u32 = 1;

pub const CMD_LAST: u32 = 0x7fff;

/// The command of the menu of the desktop that was chosen, counted from zero; none where the menu was
/// left.
pub fn chosen_command(cmd: u32) -> (r: Option<u32>)
    ensures
        r == if CMD_FIRST <= cmd <= CMD_LAST {
            Some((cmd - CMD_FIRST) as u32)
        } else {
            None
        },
{
    if cmd >= CMD_FIRST && cmd <= CMD_LAST {
        Some(cmd - CMD_FIRST)
    } else {
        None
    }
}

/// Whether the icon of a file is that of the file it leads to.
pub fn leads_elsewhere(extension: &str) -> (r: bool)
    ensures
        r == same_but_case(extension@, "lnk"@),
{
    same_text_but_case(extension, "lnk")
}

/// The length of the text in a buffer: up to the first zero, or all of it.
pub open spec fn is_text_len(n: int, buf: Seq<u16>) -> bool {
    &&& 0 <= n <= buf.len()
    &&& forall|i: int| 0 <= i < n ==> #[trigger] buf[i] != 0
    &&& n < buf.len() ==> buf[n] == 0
}

/// The length of the text in a buffer; none where there is no text.
pub fn text_len(buf: &[u16]) -> (r: Option<usize>)
    ensures
        match r {
            Some(n) => 0 < n && is_text_len(n as int, buf@),
            None => is_text_len(0, buf@),
        },
{
    let mut n: usize = 0;
    while n < buf.len() && buf[n] != 0
        invariant
            n <= buf@.len(),
            forall|i: int| 0 <= i < n ==> #[trigger] buf@[i] != 0,
        decreases buf@.len() - n,
    {
        n += 1;
    }
    if n == 0 {
        None
    } else {
        Some(n)
    }
}

/// The lines in which the numbers of the kinds are reported, up to the `n`-th kind.
pub open spec fn kinds_line(items: Seq<DesktopItem>, n: int) -> Seq<char>
    decreases n,
{
    if n <= 0 {
        "分类: "@
    } else {
        let kind = kind_at(n - 1);
        kinds_line(items, n - 1) + label_text(kind) + digits(count_kind(items, kind), 10) + " "@
    }
}

/// The line in which a card is reported.
pub open spec fn card_line(i: int, title: Seq<char>, n: int) -> Seq<char> {
    "  分区"@ + digits(i + 1, 10) + ": "@ + title + " "@ + digits(n, 10) + " 个"@
}

/// The report of a scan: a heading, the number of items, those of each kind, and the cards.
pub open spec fn is_report(lines: Seq<String>, items: Seq<DesktopItem>) -> bool {
    &&& lines.len() == 9
    &&& lines[0]@ == "=== 桌面图标扫描结果 ==="@
    &&& lines[1]@ == "共 "@ + digits(items.len() as int, 10) + " 个项"@
    &&& lines[2]@ == kinds_line(items, 5)
    &&& forall|i: int|
        0 <= i < 5 ==> (#[trigger] lines[3 + i])@ == card_line(
            i,
            kind_title(kind_at(i)),
            positions(items, kind_at(i)).len() as int,
        )
    &&& lines[8]@ == "========================="@
}

/// The line in which the numbers of the kinds are reported.
fn report_kinds(items: &[DesktopItem]) -> (r: String)
    ensures
        r@ == kinds_line(items@, 5),
{
    let counts: [(IconKind, usize); 5] = count_by_kind(items);
    let mut line: String = "分类: ".to_owned();
    let mut i: usize = 0;
    while i < 5
        invariant
            i <= 5,
            forall|k: int| 0 <= k < 5 ==> (#[trigger] counts@[k]).1 as int == count_kind(items@, kind_at(k)),
            forall|k: int| 0 <= k < 5 ==> (#[trigger] counts@[k]).0 == kind_at(k),
            line@ == kinds_line(items@, i as int),
        decreases 5 - i,
    {
        assert(counts@[i as int].0 == kind_at(i as int));
        line.append(counts[i].0.label());
        line.append(decimal(counts[i].1 as u128).as_str());
        line.append(" ");
        i += 1;
    }
    line
}

/// The line in which a card is reported.
fn report_card(i: usize, card: &Card) -> (r: String)
    requires
        i < 5,
    ensures
        r@ == card_line(i as int, card.title@, card.item_indices@.len() as int),
{
    let mut line: String = "  分区".to_owned();
    line.append(decimal(i as u128 + 1).as_str());
    line.append(": ");
    line.append(card.title.as_str());
    line.append(" ");
    line.append(decimal(card.item_indices.len() as u128).as_str());
    line.append(" 个");
    line
}

/// The report of a scan.
pub fn report(items: &[DesktopItem]) -> (r: Vec<String>)
    ensures
        is_report(r@, items@),
{
    let mut lines: Vec<String> = Vec::new();
    lines.push("=== 桌面图标扫描结果 ===".to_owned());
    let mut total: String = "共 ".to_owned();
    total.append(decimal(items.len() as u128).as_str());
    total.append(" 个项");
    lines.push(total);
    lines.push(report_kinds(items));
    let cards: Vec<Card> = classify(items);
    let ghost head = lines@;
    let mut i: usize = 0;
    while i < 5
        invariant
            i <= 5,
            cards@.len() == 5,
            forall|k: int|
                0 <= k < 5 ==> crate::layout::is_sorted_card(#[trigger] cards@[k], kind_at(k), items@),
            head.len() == 3,
            lines@.len() == 3 + i,
            lines@.take(3) == head,
            forall|k: int|
                0 <= k < i ==> (#[trigger] lines@[3 + k])@ == card_line(
                    k,
                    kind_title(kind_at(k)),
                    positions(items@, kind_at(k)).len() as int,
                ),
        decreases 5 - i,
    {
        assert(crate::layout::is_sorted_card(cards@[i as int], kind_at(i as int), items@));
        let ghost before = lines@;
        lines.push(report_card(i, &cards[i]));
        assert(lines@.take(3) =~= head);
        assert forall|k: int| 0 <= k < i implies (#[trigger] lines@[3 + k]) == before[3 + k] by {}
        i += 1;
    }
    assert(lines@[0] == head[0] && lines@[1] == head[1] && lines@[2] == head[2]) by {
        assert(lines@.take(3)[0] == lines@[0]);
        assert(lines@.take(3)[1] == lines@[1]);
        assert(lines@.take(3)[2] == lines@[2]);
    }
    let ghost before = lines@;
    lines.push("=========================".to_owned());
    assert forall|k: int| 0 <= k < 5 implies (#[trigger] lines@[3 + k]) == before[3 + k] by {}
    lines
}

/// A decimal numeral is made of digits, and stands for its number.
proof fn lemma_numerals_read_back(n: int)
    requires
        0 <= n,
    ensures
        digits(n, 10).len() > 0,
        forall|i: int| 0 <= i < digits(n, 10).len() ==> is_digit(#[trigger] digits(n, 10)[i]),
        value_of(digits(n, 10)) == n,
    decreases n,
{
    let d = digits(n, 10);
    if n < 10 {
        assert(d =~= seq![digit(n)]);
        assert(d.drop_last() =~= Seq::<char>::empty());
        assert(value_of(d.drop_last()) == 0);
    } else {
        lemma_numerals_read_back(n / 10);
        let t = digits(n / 10, 10);
        assert(d == t.push(digit(n % 10)));
        assert(d.drop_last() =~= t);
        assert forall|i: int| 0 <= i < d.len() implies is_digit(#[trigger] d[i]) by {
            if i < t.len() {
                assert(d[i] == t[i]);
            }
        }
    }
}

/// A process that is started to look after another one looks after that one.
pub proof fn law_watchdogs_get_their_process(name: Seq<char>, pid: u32)
    ensures
        mode_of(seq![name, "--watchdog"@, digits(pid as int, 10)]) == Mode::Watchdog(pid),
{
    reveal_strlit("--watchdog");
    reveal_strlit("--uninstall");
    let d = digits(pid as int, 10);
    lemma_numerals_read_back(pid as int);
    assert(is_digit(d[0]));
    assert(digit_part(d) == d);
    assert("--watchdog"@[2] != "--uninstall"@[2]);
}

} // verus!
