//! The backslash convention that packs a text onto one line, and its inverse
//! on the input side.

use crate::text::chars_of;
use vstd::prelude::*;

verus! {

/// What one character becomes when a text is escaped.
pub open spec fn escaped_char(c: char) -> Seq<char> {
    if c == '\\' {
        seq!['\\', '\\']
    } else if c == '"' {
        seq!['\\', '"']
    } else if c == '\n' {
        seq!['\\', 'n']
    } else if c == '\r' {
        seq!['\\', 'r']
    } else if c == '\t' {
        seq!['\\', 't']
    } else {
        seq![c]
    }
}

/// The escaped form of `s`: each character replaced by `escaped_char` of it.
pub open spec fn escaped(s: Seq<char>) -> Seq<char>
    decreases s.len(),
{
    if s.len() == 0 {
        Seq::empty()
    } else {
        escaped(s.drop_last()) + escaped_char(s.last())
    }
}

/// Escaping goes character by character: the escaped form of two texts in a
/// row is the two escaped forms in a row.
pub proof fn lemma_escaped_concat(a: Seq<char>, b: Seq<char>)
    ensures
        escaped(a + b) == escaped(a) + escaped(b),
    decreases b.len(),
{
    if b.len() == 0 {
        assert(a + b == a);
        assert(escaped(a) + escaped(b) == escaped(a));
    } else {
        lemma_escaped_concat(a, b.drop_last());
        assert((a + b).drop_last() == a + b.drop_last());
        assert(escaped(a) + escaped(b.drop_last()) + escaped_char(b.last()) == escaped(a)
            + (escaped(b.drop_last()) + escaped_char(b.last())));
    }
}

/// The escaped form of a text starts with the escaped form of its first
/// character.
pub proof fn lemma_escaped_first(s: Seq<char>)
    requires
        s.len() > 0,
    ensures
        escaped(s) == escaped_char(s[0]) + escaped(s.skip(1)),
{
    let head = seq![s[0]];
    assert(s == head + s.skip(1));
    lemma_escaped_concat(head, s.skip(1));
    assert(head.drop_last() == Seq::<char>::empty());
    assert(escaped(head) == escaped_char(s[0])) by {
        reveal_with_fuel(escaped, 2);
        assert(Seq::<char>::empty() + escaped_char(s[0]) == escaped_char(s[0]));
    }
}

/// Escapes backslash, double quote, newline, carriage return and tab with a
/// backslash; every other character stays as it is.
pub fn escape(s: &str) -> (out: String)
    ensures
        out@ == escaped(s@),
{
    let chars = chars_of(s);
    let mut out = String::new();
    let mut i: usize = 0;
    while i < chars.len()
        invariant
            i <= chars.len(),
            out@ == escaped(chars@.take(i as int)),
        decreases chars.len() - i,
    {
        let c = chars[i];
        proof {
            assert(chars@.take(i + 1).drop_last() == chars@.take(i as int));
        }
        if c == '\\' {
            out.push('\\');
            out.push('\\');
        } else if c == '"' {
            out.push('\\');
            out.push('"');
        } else if c == '\n' {
            out.push('\\');
            out.push('n');
        } else if c == '\r' {
            out.push('\\');
            out.push('r');
        } else if c == '\t' {
            out.push('\\');
            out.push('t');
        } else {
            out.push(c);
        }
        i = i + 1;
    }
    proof {
        assert(chars@.take(i as int) == chars@);
    }
    out
}

/// What a backslash followed by `c` stands for on an input line.
pub open spec fn unescaped_pair(c: char) -> Seq<char> {
    if c == 'n' {
        seq!['\n']
    } else if c == 'r' {
        seq!['\r']
    } else if c == 't' {
        seq!['\t']
    } else if c == '\\' {
        seq!['\\']
    } else {
        seq!['\\', c]
    }
}

/// The text that an input line stands for: `\\`, `\n`, `\r` and `\t` are
/// resolved from left to right, a backslash before any other character stays
/// with that character, and so does a backslash at the very end.
pub open spec fn unescaped_input(s: Seq<char>) -> Seq<char>
    decreases s.len(),
{
    if s.len() == 0 {
        Seq::empty()
    } else if s[0] != '\\' {
        seq![s[0]] + unescaped_input(s.skip(1))
    } else if s.len() == 1 {
        seq!['\\']
    } else {
        unescaped_pair(s[1]) + unescaped_input(s.skip(2))
    }
}

/// Undoes the packing of one input line.
pub fn unescape_input(s: &str) -> (out: String)
    ensures
        out@ == unescaped_input(s@),
{
    let chars = chars_of(s);
    let mut out = String::new();
    let mut i: usize = 0;
    proof {
        assert(chars@.skip(0) == chars@);
        assert(out@ + unescaped_input(chars@) == unescaped_input(chars@));
    }
    while i < chars.len()
        invariant
            i <= chars.len(),
            out@ + unescaped_input(chars@.skip(i as int)) == unescaped_input(chars@),
        decreases chars.len() - i,
    {
        let ghost rest = chars@.skip(i as int);
        let c = chars[i];
        if c != '\\' {
            proof {
                assert(rest.skip(1) == chars@.skip(i + 1));
                assert(out@.push(c) + unescaped_input(rest.skip(1)) == out@ + (seq![c]
                    + unescaped_input(rest.skip(1))));
            }
            out.push(c);
            i = i + 1;
        } else if i + 1 == chars.len() {
            proof {
                assert(chars@.skip(i + 1).len() == 0);
                assert(out@.push(c) + unescaped_input(chars@.skip(i + 1)) == out@ + seq![c]);
            }
            out.push('\\');
            i = i + 1;
        } else {
            let d = chars[i + 1];
            let ghost before = out@;
            proof {
                assert(rest.skip(2) == chars@.skip(i + 2));
            }
            if d == 'n' {
                out.push('\n');
            } else if d == 'r' {
                out.push('\r');
            } else if d == 't' {
                out.push('\t');
            } else if d == '\\' {
                out.push('\\');
            } else {
                out.push('\\');
                out.push(d);
            }
            proof {
                assert(out@ == before + unescaped_pair(d));
                assert(out@ + unescaped_input(rest.skip(2)) == before + (unescaped_pair(d)
                    + unescaped_input(rest.skip(2))));
            }
            i = i + 2;
        }
    }
    proof {
        assert(out@ + Seq::<char>::empty() == out@);
    }
    out
}

} // verus!
