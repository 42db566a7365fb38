//! Text helpers: the first line of a text, decimal rendering of numbers, and
//! the order in which keys compare.

use vstd::prelude::*;
use vstd::std_specs::iter::IteratorSpec;

verus! {

/// The number of characters of `s` that stand before its first line feed:
/// the whole length where it holds none.
pub open spec fn line_end(s: Seq<char>) -> int
    decreases s.len(),
{
    if s.len() == 0 || s[0] == '\n' {
        0
    } else {
        1 + line_end(s.drop_first())
    }
}

/// The first line of `s`, without its line feed.
pub open spec fn first_line_of(s: Seq<char>) -> Seq<char> {
    s.take(line_end(s))
}

/// `n` is `line_end(s)` exactly when no line feed stands before position `n`
/// and the text ends, or a line feed stands, at `n`.
pub proof fn lemma_line_end_is(s: Seq<char>, n: int)
    requires
        0 <= n <= s.len(),
        forall|i: int| 0 <= i < n ==> s[i] != '\n',
        n == s.len() || s[n] == '\n',
    ensures
        line_end(s) == n,
    decreases s.len(),
{
    if n > 0 {
        let rest = s.drop_first();
        assert forall|i: int| 0 <= i < n - 1 implies rest[i] != '\n' by {
            assert(rest[i] == s[i + 1]);
        }
        lemma_line_end_is(rest, n - 1);
    }
}

/// The first line is a prefix of the text that holds no line feed, and it is
/// followed by a line feed unless it is the whole text.
pub proof fn lemma_first_line_of(s: Seq<char>)
    ensures
        0 <= line_end(s) <= s.len(),
        first_line_of(s).len() == line_end(s),
        forall|i: int| 0 <= i < line_end(s) ==> first_line_of(s)[i] == s[i] && s[i] != '\n',
        line_end(s) == s.len() || s[line_end(s)] == '\n',
    decreases s.len(),
{
    if !(s.len() == 0 || s[0] == '\n') {
        let rest = s.drop_first();
        lemma_first_line_of(rest);
        assert forall|i: int| 0 <= i < line_end(s) implies first_line_of(s)[i] == s[i] && s[i]
            != '\n' by {
            if i > 0 {
                assert(rest[i - 1] == s[i]);
                assert(first_line_of(rest)[i - 1] == rest[i - 1]);
            }
        }
        assert(line_end(s) == s.len() || s[line_end(s)] == '\n') by {
            if line_end(rest) < rest.len() {
                assert(rest[line_end(rest)] == s[line_end(rest) + 1]);
            }
        }
    }
}

/// Cuts `text` at its first line feed.
pub fn first_line(text: &str) -> (line: String)
    ensures
        line@ == first_line_of(text@),
{
    let total = text.unicode_len();
    let mut chars = text.chars();
    let mut n: usize = 0;
    loop
        invariant_except_break
            chars.remaining() == text@.skip(n as int),
        invariant
            total == text@.len(),
            n <= total,
            forall|i: int| 0 <= i < n ==> text@[i] != '\n',
        ensures
            n <= total,
            forall|i: int| 0 <= i < n ==> text@[i] != '\n',
            n == text@.len() || text@[n as int] == '\n',
        decreases total - n,
    {
        match chars.next() {
            Some(c) => {
                assert(c == text@.skip(n as int)[0]);
                if c == '\n' {
                    break ;
                }
                assert(text@.skip(n as int).drop_first() == text@.skip(n as int + 1));
                n = n + 1;
            },
            None => {
                break ;
            },
        }
    }
    proof {
        lemma_line_end_is(text@, n as int);
    }
    text.substring_char(0, n).to_owned()
}

/// The character of one decimal digit.
pub open spec fn digit_char(d: nat) -> char
    recommends
        d < 10,
{
    if d == 0 {
        '0'
    } else if d == 1 {
        '1'
    } else if d == 2 {
        '2'
    } else if d == 3 {
        '3'
    } else if d == 4 {
        '4'
    } else if d == 5 {
        '5'
    } else if d == 6 {
        '6'
    } else if d == 7 {
        '7'
    } else if d == 8 {
        '8'
    } else {
        '9'
    }
}

/// `n` in decimal, without leading zeros.
pub open spec fn decimal(n: nat) -> Seq<char>
    decreases n,
{
    if n < 10 {
        seq![digit_char(n)]
    } else {
        decimal(n / 10).push(digit_char(n % 10))
    }
}

fn digit_text(d: u32) -> (text: &'static str)
    requires
        d < 10,
    ensures
        text@ == seq![digit_char(d as nat)],
{
    proof {
        reveal_strlit("0");
        reveal_strlit("1");
        reveal_strlit("2");
        reveal_strlit("3");
        reveal_strlit("4");
        reveal_strlit("5");
        reveal_strlit("6");
        reveal_strlit("7");
        reveal_strlit("8");
        reveal_strlit("9");
    }
    let text = if d == 0 {
        "0"
    } else if d == 1 {
        "1"
    } else if d == 2 {
        "2"
    } else if d == 3 {
        "3"
    } else if d == 4 {
        "4"
    } else if d == 5 {
        "5"
    } else if d == 6 {
        "6"
    } else if d == 7 {
        "7"
    } else if d == 8 {
        "8"
    } else {
        "9"
    };
    assert(text@ =~= seq![digit_char(d as nat)]);
    text
}

/// Appends `n` in decimal to `out`.
pub fn push_decimal(out: &mut String, n: u32)
    ensures
        final(out)@ == old(out)@ + decimal(n as nat),
    decreases n,
{
    if n >= 10 {
        push_decimal(out, n / 10);
    }
    out.append(digit_text(n % 10));
    assert(out@ =~= old(out)@ + decimal(n as nat));
}

/// The order of texts: character by character, by code point, a proper prefix
/// before the longer text. This is the order in which `String` and `str` compare.
pub open spec fn key_le(a: Seq<char>, b: Seq<char>) -> bool
    decreases a.len(),
{
    if a.len() == 0 {
        true
    } else if b.len() == 0 {
        false
    } else if a[0] == b[0] {
        key_le(a.drop_first(), b.drop_first())
    } else {
        (a[0] as u32) < (b[0] as u32)
    }
}

/// Two texts that each stand before the other are one text.
pub proof fn lemma_key_le_antisymmetric(a: Seq<char>, b: Seq<char>)
    requires
        key_le(a, b),
        key_le(b, a),
    ensures
        a == b,
    decreases a.len(),
{
    if a.len() == 0 || b.len() == 0 {
        assert(a =~= b);
    } else {
        lemma_key_le_antisymmetric(a.drop_first(), b.drop_first());
        assert(a =~= seq![a[0]] + a.drop_first());
        assert(b =~= seq![b[0]] + b.drop_first());
    }
}

} // verus!
