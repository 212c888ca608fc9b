//! The wire protocol: newline-delimited UTF-8 text lines, each carrying one
//! command. A line is trimmed of surrounding ASCII whitespace (which covers
//! the `\n` or `\r\n` terminator a buffered line reader leaves in place) and
//! then matched against the two literal commands; everything else is an
//! unknown command.

use vstd::prelude::*;

verus! {

/// The commands a client can send. Any line that is not one of the two
/// literal command strings after trimming is `Unknown`.
#[derive(Clone, Copy, PartialEq, Eq, Structural, Debug)]
pub enum Command {
    Start,
    Stop,
    Unknown,
}

/// ASCII whitespace: the characters stripped from both ends of an input
/// line before it is matched against the commands.
pub open spec fn is_space(c: char) -> bool {
    c == ' ' || c == '\t' || c == '\n' || c == '\r' || c == '\x0c'
}

/// `s` with its leading whitespace removed.
pub open spec fn trim_start_spec(s: Seq<char>) -> Seq<char>
    decreases s.len(),
{
    if s.len() > 0 && is_space(s[0]) {
        trim_start_spec(s.drop_first())
    } else {
        s
    }
}

/// `s` with its trailing whitespace removed.
pub open spec fn trim_end_spec(s: Seq<char>) -> Seq<char>
    decreases s.len(),
{
    if s.len() > 0 && is_space(s.last()) {
        trim_end_spec(s.drop_last())
    } else {
        s
    }
}

/// `s` with whitespace removed from both ends.
pub open spec fn trim_spec(s: Seq<char>) -> Seq<char> {
    trim_end_spec(trim_start_spec(s))
}

/// The command carried by one input line.
pub open spec fn parse_spec(line: Seq<char>) -> Command {
    if trim_spec(line) == "START_RECORDING"@ {
        Command::Start
    } else if trim_spec(line) == "STOP_RECORDING"@ {
        Command::Stop
    } else {
        Command::Unknown
    }
}

fn is_space_char(c: char) -> (r: bool)
    ensures
        r == is_space(c),
{
    c == ' ' || c == '\t' || c == '\n' || c == '\r' || c == '\x0c'
}

proof fn lemma_trim_start_at(s: Seq<char>, i: int)
    requires
        0 <= i <= s.len(),
        forall|k: int| 0 <= k < i ==> is_space(s[k]),
        i == s.len() || !is_space(s[i]),
    ensures
        trim_start_spec(s) == s.subrange(i, s.len() as int),
    decreases i,
{
    if i == 0 {
        assert(s.subrange(0, s.len() as int) =~= s);
    } else {
        let t = s.drop_first();
        lemma_trim_start_at(t, i - 1);
        assert(t.subrange(i - 1, t.len() as int) =~= s.subrange(i, s.len() as int));
    }
}

proof fn lemma_trim_end_at(s: Seq<char>, j: int)
    requires
        0 <= j <= s.len(),
        forall|k: int| j <= k < s.len() ==> is_space(s[k]),
        j == 0 || !is_space(s[j - 1]),
    ensures
        trim_end_spec(s) == s.subrange(0, j),
    decreases s.len() - j,
{
    if j == s.len() {
        if s.len() > 0 {
            assert(s.subrange(0, j) =~= s);
        } else {
            assert(s.subrange(0, 0) =~= s);
        }
    } else {
        let t = s.drop_last();
        assert(is_space(s.last()));
        lemma_trim_end_at(t, j);
        assert(t.subrange(0, j) =~= s.subrange(0, j));
    }
}

/// Removes ASCII whitespace from both ends of `s`.
pub fn trim(s: &str) -> (r: &str)
    ensures
        r@ == trim_spec(s@),
{
    let n = s.unicode_len();
    let mut lo: usize = 0;
    while lo < n && is_space_char(s.get_char(lo))
        invariant
            0 <= lo <= n,
            n == s@.len(),
            forall|k: int| 0 <= k < lo ==> is_space(s@[k]),
        decreases n - lo,
    {
        lo = lo + 1;
    }
    proof {
        lemma_trim_start_at(s@, lo as int);
    }
    let mut hi: usize = n;
    while hi > lo && is_space_char(s.get_char(hi - 1))
        invariant
            lo <= hi <= n,
            n == s@.len(),
            forall|k: int| hi <= k < n ==> is_space(s@[k]),
        decreases hi,
    {
        hi = hi - 1;
    }
    proof {
        let t = s@.subrange(lo as int, n as int);
        if hi > lo {
            assert(!is_space(s@[hi - 1]));
            assert forall|k: int| (hi - lo) <= k < t.len() implies is_space(t[k]) by {
                assert(t[k] == s@[k + lo]);
            }
            assert(t[hi - lo - 1] == s@[hi - 1]);
            lemma_trim_end_at(t, hi - lo);
        } else {
            assert forall|k: int| 0 <= k < t.len() implies is_space(t[k]) by {
                assert(t[k] == s@[k + lo]);
            }
            lemma_trim_end_at(t, 0);
        }
        assert(t.subrange(0, hi - lo) =~= s@.subrange(lo as int, hi as int));
    }
    s.substring_char(lo, hi)
}

/// Character-for-character equality of two strings.
pub fn str_eq(a: &str, b: &str) -> (r: bool)
    ensures
        r == (a@ == b@),
{
    let na = a.unicode_len();
    let nb = b.unicode_len();
    if na != nb {
        return false;
    }
    let mut i: usize = 0;
    while i < na
        invariant
            0 <= i <= na,
            na == a@.len(),
            na == b@.len(),
            forall|k: int| 0 <= k < i ==> a@[k] == b@[k],
        decreases na - i,
    {
        if a.get_char(i) != b.get_char(i) {
            return false;
        }
        i = i + 1;
    }
    proof {
        assert(a@ =~= b@);
    }
    true
}

/// The complete lines of `s`, in order: the stretches of characters between
/// newline terminators, each without its terminator. `cur` is the partial
/// line read so far; a partial line still open when the input ends is
/// dropped, matching the read-until-newline framing.
pub open spec fn split_rec(s: Seq<char>, cur: Seq<char>) -> Seq<Seq<char>>
    decreases s.len(),
{
    if s.len() == 0 {
        Seq::empty()
    } else if s[0] == '\n' {
        seq![cur] + split_rec(s.drop_first(), Seq::empty())
    } else {
        split_rec(s.drop_first(), cur.push(s[0]))
    }
}

/// The complete lines of `s`, each without its `\n` terminator. A final
/// partial line with no terminator is dropped.
pub open spec fn lines_spec(s: Seq<char>) -> Seq<Seq<char>> {
    split_rec(s, Seq::empty())
}

/// Splits `input` into its complete lines, dropping the terminators and any
/// final partial line.
pub fn split_lines(input: &str) -> (lines: Vec<String>)
    ensures
        lines.deep_view() == lines_spec(input@),
{
    let n = input.unicode_len();
    let mut lines: Vec<String> = Vec::new();
    let mut start: usize = 0;
    let mut i: usize = 0;
    proof {
        assert(input@.skip(0) =~= input@);
        assert(input@.subrange(0, 0) =~= Seq::<char>::empty());
        assert(lines.deep_view() =~= Seq::<Seq<char>>::empty());
        assert(Seq::<Seq<char>>::empty() + split_rec(input@, Seq::<char>::empty()) =~= split_rec(
            input@,
            Seq::<char>::empty(),
        ));
    }
    while i < n
        invariant
            0 <= start <= i <= n,
            n == input@.len(),
            lines_spec(input@) == lines.deep_view() + split_rec(
                input@.skip(i as int),
                input@.subrange(start as int, i as int),
            ),
        decreases n - i,
    {
        let ghost rem = input@.skip(i as int);
        let ghost cur = input@.subrange(start as int, i as int);
        proof {
            assert(rem[0] == input@[i as int]);
            assert(rem.drop_first() =~= input@.skip(i as int + 1));
        }
        let c = input.get_char(i);
        if c == '\n' {
            let line = input.substring_char(start, i).to_owned();
            let ghost lv = line@;
            let ghost dv = lines.deep_view();
            lines.push(line);
            proof {
                assert(lines.deep_view() =~= dv.push(lv));
                assert(dv + split_rec(rem, cur) =~= dv.push(lv) + split_rec(
                    rem.drop_first(),
                    Seq::empty(),
                ));
                assert(input@.subrange(i as int + 1, i as int + 1) =~= Seq::<char>::empty());
            }
            start = i + 1;
        } else {
            proof {
                assert(cur.push(input@[i as int]) =~= input@.subrange(start as int, i as int + 1));
            }
        }
        i = i + 1;
    }
    proof {
        assert(lines.deep_view() + split_rec(
            input@.skip(n as int),
            input@.subrange(start as int, n as int),
        ) =~= lines.deep_view());
    }
    lines
}

/// Maps one input line to the command it carries.
pub fn parse_command(line: &str) -> (c: Command)
    ensures
        c == parse_spec(line@),
{
    let t = trim(line);
    if str_eq(t, "START_RECORDING") {
        Command::Start
    } else if str_eq(t, "STOP_RECORDING") {
        Command::Stop
    } else {
        Command::Unknown
    }
}

} // verus!
