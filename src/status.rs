//! Parsing of the line-oriented `Key:\tValue` process status text, as the
//! kernel exposes it for each live pid.
use vstd::prelude::*;
use vstd::string::StrSliceExecFns;

verus! {

/// What the status text says of a process: its name, its parent and the
/// user that owns it.
#[derive(Clone, Debug, PartialEq, Eq)]
pub struct ProcessStatus {
    pub name: String,
    pub parent_pid: u32,
    pub uid: u32,
}

/// Unicode's White_Space property, which separates the fields of a line.
pub open spec fn is_ws(c: char) -> bool {
    let v = c as u32;
    (9 <= v && v <= 13) || v == 32 || v == 0x85 || v == 0xa0 || v == 0x1680 || (0x2000 <= v
        && v <= 0x200a) || v == 0x2028 || v == 0x2029 || v == 0x202f || v == 0x205f || v == 0x3000
}

pub open spec fn is_digit(c: char) -> bool {
    '0' as u32 <= c as u32 && c as u32 <= '9' as u32
}

pub open spec fn all_digits(t: Seq<char>) -> bool {
    forall|k: int| 0 <= k < t.len() ==> is_digit(#[trigger] t[k])
}

/// The decimal value of a run of digits.
pub open spec fn digits_value(t: Seq<char>) -> nat
    decreases t.len(),
{
    if t.len() == 0 {
        0
    } else {
        digits_value(t.drop_last()) * 10 + (t.last() as u32 - '0' as u32) as nat
    }
}

/// A field value read as an unsigned 32-bit number: an optional `+`, then one
/// or more decimal digits whose value fits. Anything else reads as 0.
pub open spec fn number_or_zero(t: Seq<char>) -> u32 {
    let d = unsigned_part(t);
    if d.len() > 0 && all_digits(d) && digits_value(d) <= u32::MAX {
        digits_value(d) as u32
    } else {
        0
    }
}

/// First position in `[i, e)` that is not whitespace, or `e`.
pub open spec fn skip_ws(s: Seq<char>, i: int, e: int) -> int
    decreases e - i,
{
    if i >= e {
        e
    } else if is_ws(s[i]) {
        skip_ws(s, i + 1, e)
    } else {
        i
    }
}

/// First position in `[i, e)` that is whitespace, or `e`.
pub open spec fn token_end(s: Seq<char>, i: int, e: int) -> int
    decreases e - i,
{
    if i >= e {
        e
    } else if is_ws(s[i]) {
        i
    } else {
        token_end(s, i + 1, e)
    }
}

/// Position of the first line feed at or after `i`, or the length of `s`.
pub open spec fn line_end(s: Seq<char>, i: int) -> int
    decreases s.len() - i,
{
    if i >= s.len() {
        s.len() as int
    } else if s[i] == '\n' {
        i
    } else {
        line_end(s, i + 1)
    }
}

pub open spec fn name_key() -> Seq<char> {
    seq!['N', 'a', 'm', 'e', ':']
}

pub open spec fn ppid_key() -> Seq<char> {
    seq!['P', 'P', 'i', 'd', ':']
}

pub open spec fn uid_key() -> Seq<char> {
    seq!['U', 'i', 'd', ':']
}

/// What one line contributes to the lookup.
pub enum Field {
    Name(Seq<char>),
    Parent(u32),
    Owner(u32),
    Other,
}

/// The meaning of the line `s[start..e)`: its first whitespace-separated word
/// is the key, its second the value; a line with fewer than two words, or
/// with an unknown key, says nothing.
pub open spec fn line_field(s: Seq<char>, start: int, e: int) -> Field {
    let a0 = skip_ws(s, start, e);
    let b0 = token_end(s, a0, e);
    let a1 = skip_ws(s, b0, e);
    let b1 = token_end(s, a1, e);
    if a1 >= e {
        Field::Other
    } else {
        let k = s.subrange(a0, b0);
        let v = s.subrange(a1, b1);
        if k == name_key() {
            Field::Name(v)
        } else if k == ppid_key() {
            Field::Parent(number_or_zero(v))
        } else if k == uid_key() {
            Field::Owner(number_or_zero(v))
        } else {
            Field::Other
        }
    }
}

/// The name, parent and owner found by reading the lines from position `i`
/// on, starting from what was found before; the owner's line ends the scan.
pub open spec fn scan(s: Seq<char>, i: int, name: Seq<char>, ppid: u32, uid: u32) -> (
    Seq<char>,
    u32,
    u32,
)
    decreases s.len() + 1 - i,
    via scan_decreases
{
    if i >= s.len() {
        (name, ppid, uid)
    } else {
        let e = line_end(s, i);
        match line_field(s, i, e) {
            Field::Name(v) => scan(s, e + 1, v, ppid, uid),
            Field::Parent(p) => scan(s, e + 1, name, p, uid),
            Field::Owner(u) => (name, ppid, u),
            Field::Other => scan(s, e + 1, name, ppid, uid),
        }
    }
}

#[via_fn]
proof fn scan_decreases(s: Seq<char>, i: int, name: Seq<char>, ppid: u32, uid: u32) {
    if i < s.len() {
        lemma_line_end_bounds(s, i);
    }
}

pub proof fn lemma_line_end_bounds(s: Seq<char>, i: int)
    requires
        i <= s.len(),
    ensures
        i <= line_end(s, i) <= s.len(),
    decreases s.len() - i,
{
    if i < s.len() && s[i] != '\n' {
        lemma_line_end_bounds(s, i + 1);
    }
}

/// The status of a process as its status text gives it: present when a
/// non-empty name was found.
pub open spec fn status_of(s: Seq<char>) -> Option<(Seq<char>, u32, u32)> {
    let (name, ppid, uid) = scan(s, 0, Seq::empty(), 0, 0);
    if name.len() > 0 {
        Some((name, ppid, uid))
    } else {
        None
    }
}

pub open spec fn status_view(r: Option<ProcessStatus>) -> Option<(Seq<char>, u32, u32)> {
    match r {
        Some(st) => Some((st.name@, st.parent_pid, st.uid)),
        None => None,
    }
}

fn is_ws_char(c: char) -> (r: bool)
    ensures
        r == is_ws(c),
{
    let v = c as u32;
    (9 <= v && v <= 13) || v == 32 || v == 0x85 || v == 0xa0 || v == 0x1680 || (0x2000 <= v
        && v <= 0x200a) || v == 0x2028 || v == 0x2029 || v == 0x202f || v == 0x205f || v == 0x3000
}

fn skip_ws_at(text: &str, i: usize, e: usize) -> (r: usize)
    requires
        i <= e <= text@.len(),
    ensures
        r as int == skip_ws(text@, i as int, e as int),
        i <= r <= e,
{
    let mut j = i;
    while j < e && is_ws_char(text.get_char(j))
        invariant
            i <= j <= e <= text@.len(),
            skip_ws(text@, i as int, e as int) == skip_ws(text@, j as int, e as int),
        decreases e - j,
    {
        j += 1;
    }
    j
}

fn token_end_at(text: &str, i: usize, e: usize) -> (r: usize)
    requires
        i <= e <= text@.len(),
    ensures
        r as int == token_end(text@, i as int, e as int),
        i <= r <= e,
{
    let mut j = i;
    while j < e && !is_ws_char(text.get_char(j))
        invariant
            i <= j <= e <= text@.len(),
            token_end(text@, i as int, e as int) == token_end(text@, j as int, e as int),
        decreases e - j,
    {
        j += 1;
    }
    j
}

fn line_end_at(text: &str, i: usize, n: usize) -> (r: usize)
    requires
        i <= n,
        n == text@.len(),
    ensures
        r as int == line_end(text@, i as int),
        i <= r <= n,
{
    let mut j = i;
    while j < n && text.get_char(j) != '\n'
        invariant
            i <= j <= n == text@.len(),
            line_end(text@, i as int) == line_end(text@, j as int),
        decreases n - j,
    {
        j += 1;
    }
    j
}

/// Whether `text[a..b)` is exactly `key`.
pub(crate) fn span_is(text: &str, a: usize, b: usize, key: &str) -> (r: bool)
    requires
        a <= b <= text@.len(),
    ensures
        r == (text@.subrange(a as int, b as int) == key@),
{
    let k = key.unicode_len();
    if b - a != k {
        return false;
    }
    let mut j: usize = 0;
    while j < k
        invariant
            k == key@.len(),
            b - a == k,
            a <= b <= text@.len(),
            j <= k,
            forall|t: int| 0 <= t < j ==> text@[a + t] == key@[t],
        decreases k - j,
    {
        if text.get_char(a + j) != key.get_char(j) {
            assert(text@.subrange(a as int, b as int)[j as int] != key@[j as int]);
            return false;
        }
        j += 1;
    }
    assert(text@.subrange(a as int, b as int) =~= key@);
    true
}

proof fn lemma_prefix_value_le(d: Seq<char>, k: int)
    requires
        all_digits(d),
        0 <= k <= d.len(),
    ensures
        digits_value(d.subrange(0, k)) <= digits_value(d),
    decreases d.len(),
{
    if k < d.len() {
        let p = d.drop_last();
        assert(all_digits(p)) by {
            assert forall|t: int| 0 <= t < p.len() implies is_digit(#[trigger] p[t]) by {
                assert(p[t] == d[t]);
            }
        }
        lemma_prefix_value_le(p, k);
        assert(p.subrange(0, k) =~= d.subrange(0, k));
    } else {
        assert(d.subrange(0, k) =~= d);
    }
}

proof fn lemma_digits_extend(prev: Seq<char>, next: Seq<char>)
    requires
        all_digits(prev),
        next.len() == prev.len() + 1,
        forall|t: int| 0 <= t < prev.len() ==> next[t] == prev[t],
        is_digit(next.last()),
    ensures
        all_digits(next),
        next.drop_last() == prev,
        digits_value(next) == digits_value(prev) * 10 + (next.last() as u32 - '0' as u32) as nat,
{
    assert(next.drop_last() =~= prev);
    assert forall|t: int| 0 <= t < next.len() implies is_digit(#[trigger] next[t]) by {
        if t < prev.len() {
            assert(next[t] == prev[t]);
        }
    }
}

/// The digits part of a number field: the field without a leading `+`.
pub open spec fn unsigned_part(t: Seq<char>) -> Seq<char> {
    if t.len() > 0 && t[0] == '+' {
        t.drop_first()
    } else {
        t
    }
}

/// Reads `text[a..b)` as a number, 0 where it is not one.
fn number_at(text: &str, a: usize, b: usize) -> (r: u32)
    requires
        a <= b <= text@.len(),
    ensures
        r == number_or_zero(text@.subrange(a as int, b as int)),
{
    let ghost t = text@.subrange(a as int, b as int);
    let mut j = a;
    if j < b && text.get_char(j) == '+' {
        j += 1;
    }
    let start = j;
    let ghost d = text@.subrange(start as int, b as int);
    assert(d =~= unsigned_part(t));
    if j >= b {
        return 0;
    }
    let mut v: u64 = 0;
    assert(text@.subrange(start as int, start as int) =~= Seq::<char>::empty());
    while j < b
        invariant
            a <= start <= j <= b <= text@.len(),
            d == text@.subrange(start as int, b as int),
            d == unsigned_part(t),
            t == text@.subrange(a as int, b as int),
            d.len() > 0,
            v as nat == digits_value(text@.subrange(start as int, j as int)),
            all_digits(text@.subrange(start as int, j as int)),
            v <= u32::MAX,
        decreases b - j,
    {
        let c = text.get_char(j);
        let cv = c as u32;
        if cv < '0' as u32 || cv > '9' as u32 {
            assert(d[j - start] == c);
            assert(!is_digit(d[j - start]));
            return 0;
        }
        let ghost prev = text@.subrange(start as int, j as int);
        let ghost next = text@.subrange(start as int, j + 1);
        proof {
            lemma_digits_extend(prev, next);
        }
        v = v * 10 + (cv - '0' as u32) as u64;
        j += 1;
        if v > u32::MAX as u64 {
            proof {
                if all_digits(d) {
                    lemma_prefix_value_le(d, j - start);
                    assert(d.subrange(0, j - start) =~= next);
                }
            }
            return 0;
        }
    }
    assert(text@.subrange(start as int, j as int) =~= d);
    v as u32
}

/// What one line, `text[i..e)`, contributes, in executable form.
enum LineValue {
    Name(String),
    Parent(u32),
    Owner(u32),
    Other,
}

spec fn line_value_view(v: LineValue) -> Field {
    match v {
        LineValue::Name(s) => Field::Name(s@),
        LineValue::Parent(p) => Field::Parent(p),
        LineValue::Owner(u) => Field::Owner(u),
        LineValue::Other => Field::Other,
    }
}

fn read_line(text: &str, i: usize, e: usize) -> (r: LineValue)
    requires
        i <= e <= text@.len(),
    ensures
        line_value_view(r) == line_field(text@, i as int, e as int),
{
    let a0 = skip_ws_at(text, i, e);
    let b0 = token_end_at(text, a0, e);
    let a1 = skip_ws_at(text, b0, e);
    let b1 = token_end_at(text, a1, e);
    if a1 >= e {
        return LineValue::Other;
    }
    proof {
        reveal_strlit("Name:");
        reveal_strlit("PPid:");
        reveal_strlit("Uid:");
    }
    if span_is(text, a0, b0, "Name:") {
        assert("Name:"@ =~= name_key());
        LineValue::Name(String::from_str(text.substring_char(a1, b1)))
    } else if span_is(text, a0, b0, "PPid:") {
        assert("Name:"@ =~= name_key());
        assert("PPid:"@ =~= ppid_key());
        LineValue::Parent(number_at(text, a1, b1))
    } else if span_is(text, a0, b0, "Uid:") {
        assert("Name:"@ =~= name_key());
        assert("PPid:"@ =~= ppid_key());
        assert("Uid:"@ =~= uid_key());
        LineValue::Owner(number_at(text, a1, b1))
    } else {
        assert("Name:"@ =~= name_key());
        assert("PPid:"@ =~= ppid_key());
        assert("Uid:"@ =~= uid_key());
        LineValue::Other
    }
}

impl ProcessStatus {
    /// Reads a process status text line by line. The `Name:`, `PPid:` and
    /// `Uid:` lines are used (the last `Name:` and `PPid:` before the first
    /// `Uid:` win, and `Uid:` ends the scan); other lines are ignored. A
    /// number that does not parse reads as 0. Without a non-empty name there
    /// is no status: the process has gone or the text is not a status.
    pub fn parse(text: &str) -> (r: Option<ProcessStatus>)
        ensures
            status_view(r) == status_of(text@),
    {
        let n = text.unicode_len();
        let mut i: usize = 0;
        let mut name = String::new();
        let mut ppid: u32 = 0;
        let mut uid: u32 = 0;
        let mut done = false;
        while !done && i < n
            invariant
                n == text@.len(),
                i <= n,
                scan(text@, 0, Seq::empty(), 0, 0) == (if done {
                    (name@, ppid, uid)
                } else {
                    scan(text@, i as int, name@, ppid, uid)
                }),
            decreases n - i,
        {
            let e = line_end_at(text, i, n);
            match read_line(text, i, e) {
                LineValue::Name(v) => {
                    name = v;
                },
                LineValue::Parent(p) => {
                    ppid = p;
                },
                LineValue::Owner(u) => {
                    uid = u;
                    done = true;
                },
                LineValue::Other => {},
            }
            if e >= n {
                assert(scan(text@, e + 1, name@, ppid, uid) == (name@, ppid, uid));
                assert(scan(text@, n as int, name@, ppid, uid) == (name@, ppid, uid));
                i = n;
            } else {
                i = e + 1;
            }
        }
        if name.unicode_len() > 0 {
            Some(ProcessStatus { name, parent_pid: ppid, uid })
        } else {
            None
        }
    }
}

} // verus!
