//! Character-sequence helpers shared by the serializers: lexicographic order
//! on keys, splitting a rendered block into lines, and shifting a block right
//! by one indentation level.

use vstd::prelude::*;
use vstd::string::StrSliceExecFns;
use vstd::string::StringExecFns;

verus! {

/// Lexicographic order on character sequences, comparing code points.
pub open spec fn lex_le(a: Seq<char>, b: Seq<char>) -> bool
    decreases a.len(),
{
    if a.len() == 0 {
        true
    } else if b.len() == 0 {
        false
    } else if a[0] == b[0] {
        lex_le(a.drop_first(), b.drop_first())
    } else {
        (a[0] as int) < (b[0] as int)
    }
}

/// Strict lexicographic order on character sequences.
pub open spec fn lex_lt(a: Seq<char>, b: Seq<char>) -> bool {
    lex_le(a, b) && a != b
}

/// Unicode white space. A line made only of such characters is left empty
/// instead of being indented.
pub open spec fn is_space(c: char) -> bool {
    ||| c == '\t'
    ||| c == '\n'
    ||| c == '\u{B}'
    ||| c == '\u{C}'
    ||| c == '\r'
    ||| c == ' '
    ||| c == '\u{85}'
    ||| c == '\u{A0}'
    ||| c == '\u{1680}'
    ||| c == '\u{2000}'
    ||| c == '\u{2001}'
    ||| c == '\u{2002}'
    ||| c == '\u{2003}'
    ||| c == '\u{2004}'
    ||| c == '\u{2005}'
    ||| c == '\u{2006}'
    ||| c == '\u{2007}'
    ||| c == '\u{2008}'
    ||| c == '\u{2009}'
    ||| c == '\u{200A}'
    ||| c == '\u{2028}'
    ||| c == '\u{2029}'
    ||| c == '\u{202F}'
    ||| c == '\u{205F}'
    ||| c == '\u{3000}'
}

/// Whether a line holds white space only (an empty line counts).
pub open spec fn is_blank(l: Seq<char>) -> bool {
    forall|i: int| 0 <= i < l.len() ==> is_space(#[trigger] l[i])
}

/// Drops a carriage return standing at the end of a line.
pub open spec fn strip_cr(l: Seq<char>) -> Seq<char> {
    if l.len() > 0 && l.last() == '\r' {
        l.drop_last()
    } else {
        l
    }
}

/// The lines of `cur + t`, where `cur` is the part of the current line seen
/// so far. Lines are the segments between newline characters; a carriage
/// return just before a newline is dropped; a final newline closes the last
/// line rather than opening an empty one.
pub open spec fn lines_acc(t: Seq<char>, cur: Seq<char>) -> Seq<Seq<char>>
    decreases t.len(),
{
    if t.len() == 0 {
        if cur.len() == 0 {
            Seq::empty()
        } else {
            seq![cur]
        }
    } else if t[0] == '\n' {
        seq![strip_cr(cur)] + lines_acc(t.drop_first(), Seq::empty())
    } else {
        lines_acc(t.drop_first(), cur.push(t[0]))
    }
}

/// The lines of a text.
pub open spec fn spec_lines(t: Seq<char>) -> Seq<Seq<char>> {
    lines_acc(t, Seq::empty())
}

/// One line shifted right by one level: two spaces in front, except that a
/// blank line is left empty.
pub open spec fn shifted_line(l: Seq<char>) -> Seq<char> {
    if is_blank(l) {
        Seq::empty()
    } else {
        "  "@ + l
    }
}

/// The shifted lines, joined by newlines.
pub open spec fn shifted_lines(ls: Seq<Seq<char>>) -> Seq<char>
    decreases ls.len(),
{
    if ls.len() == 0 {
        Seq::empty()
    } else if ls.len() == 1 {
        shifted_line(ls[0])
    } else {
        shifted_line(ls[0]) + "\n"@ + shifted_lines(ls.drop_first())
    }
}

/// A rendered block shifted right by one level, line by line. An empty block
/// stays empty; any other block ends with a newline.
pub open spec fn shift_block(t: Seq<char>) -> Seq<char> {
    if spec_lines(t).len() == 0 {
        Seq::empty()
    } else {
        shifted_lines(spec_lines(t)) + "\n"@
    }
}

/// Shifting the lines one line at a time: a new line stands after a newline
/// separator, except the first.
pub proof fn lemma_shifted_lines_push(ls: Seq<Seq<char>>, l: Seq<char>)
    ensures
        shifted_lines(ls.push(l)) == if ls.len() == 0 {
            shifted_line(l)
        } else {
            shifted_lines(ls) + "\n"@ + shifted_line(l)
        },
    decreases ls.len(),
{
    if ls.len() == 0 {
        assert(ls.push(l) =~= seq![l]);
    } else {
        assert(ls.push(l).drop_first() =~= ls.drop_first().push(l));
        lemma_shifted_lines_push(ls.drop_first(), l);
        if ls.len() > 1 {
            assert(shifted_line(ls[0]) + "\n"@ + (shifted_lines(ls.drop_first()) + "\n"@
                + shifted_line(l)) =~= (shifted_line(ls[0]) + "\n"@ + shifted_lines(
                ls.drop_first(),
            )) + "\n"@ + shifted_line(l));
        }
    }
}

/// Whether `c` is Unicode white space.
fn char_is_space(c: char) -> (b: bool)
    ensures
        b == is_space(c),
{
    c == '\t' || c == '\n' || c == '\u{B}' || c == '\u{C}' || c == '\r' || c == ' ' || c
        == '\u{85}' || c == '\u{A0}' || c == '\u{1680}' || c == '\u{2000}' || c == '\u{2001}' || c
        == '\u{2002}' || c == '\u{2003}' || c == '\u{2004}' || c == '\u{2005}' || c == '\u{2006}'
        || c == '\u{2007}' || c == '\u{2008}' || c == '\u{2009}' || c == '\u{200A}' || c
        == '\u{2028}' || c == '\u{2029}' || c == '\u{202F}' || c == '\u{205F}' || c == '\u{3000}'
}

/// Whether every character of `s` is white space.
fn is_blank_str(s: &str) -> (b: bool)
    ensures
        b == is_blank(s@),
{
    let n = s.unicode_len();
    let mut i: usize = 0;
    while i < n
        invariant
            i <= n,
            n == s@.len(),
            forall|j: int| 0 <= j < i ==> is_space(#[trigger] s@[j]),
        decreases n - i,
    {
        let c = s.get_char(i);
        if !char_is_space(c) {
            return false;
        }
        i += 1;
    }
    true
}

/// Shifts a rendered block right by one level, line by line.
pub fn indent_block(t: &str) -> (r: String)
    ensures
        r@ == shift_block(t@),
{
    let n = t.unicode_len();
    let mut out = String::new();
    let mut start: usize = 0;
    let mut count: usize = 0;
    let ghost mut emitted: Seq<Seq<char>> = Seq::empty();
    let mut i: usize = 0;
    proof {
        assert(t@.skip(0) =~= t@);
        assert(t@.subrange(0, 0) =~= Seq::<char>::empty());
        assert(emitted + lines_acc(t@, Seq::empty()) =~= lines_acc(t@, Seq::empty()));
    }
    while i < n
        invariant
            start <= i <= n,
            n == t@.len(),
            count == emitted.len(),
            count <= start,
            forall|j: int| start <= j < i ==> t@[j] != '\n',
            spec_lines(t@) == emitted + lines_acc(
                t@.skip(i as int),
                t@.subrange(start as int, i as int),
            ),
            out@ == shifted_lines(emitted),
        decreases n - i,
    {
        let c = t.get_char(i);
        if c == '\n' {
            let ghost cur = t@.subrange(start as int, i as int);
            let line_end = if i > start && t.get_char(i - 1) == '\r' {
                i - 1
            } else {
                i
            };
            let line = t.substring_char(start, line_end);
            proof {
                assert(line@ =~= strip_cr(cur));
            }
            if count > 0 {
                out.append("\n");
            }
            let blank = is_blank_str(line);
            if !blank {
                out.append("  ");
                out.append(line);
            }
            proof {
                lemma_shifted_lines_push(emitted, strip_cr(cur));
                if blank {
                    assert(out@ =~= out@ + Seq::<char>::empty());
                }
                assert(t@.skip(i as int).drop_first() =~= t@.skip(i as int + 1));
                assert(t@.subrange(i as int + 1, i as int + 1) =~= Seq::<char>::empty());
                assert(emitted + (seq![strip_cr(cur)] + lines_acc(
                    t@.skip(i as int + 1),
                    Seq::empty(),
                )) =~= emitted.push(strip_cr(cur)) + lines_acc(
                    t@.skip(i as int + 1),
                    Seq::empty(),
                ));
                emitted = emitted.push(strip_cr(cur));
            }
            start = i + 1;
            count += 1;
        } else {
            proof {
                assert(t@.subrange(start as int, i as int + 1) =~= t@.subrange(
                    start as int,
                    i as int,
                ).push(t@[i as int]));
                assert(t@.skip(i as int).drop_first() =~= t@.skip(i as int + 1));
            }
        }
        i += 1;
    }
    proof {
        assert(t@.skip(n as int) =~= Seq::<char>::empty());
        if start == n {
            assert(t@.subrange(n as int, n as int) =~= Seq::<char>::empty());
            assert(emitted + lines_acc(Seq::empty(), Seq::empty()) =~= emitted);
        }
    }
    if start < n {
        let ghost cur = t@.subrange(start as int, n as int);
        let line = t.substring_char(start, n);
        if count > 0 {
            out.append("\n");
        }
        let blank = is_blank_str(line);
        if !blank {
            out.append("  ");
            out.append(line);
        }
        proof {
            lemma_shifted_lines_push(emitted, cur);
            if blank {
                assert(out@ =~= out@ + Seq::<char>::empty());
            }
            assert(lines_acc(Seq::<char>::empty(), cur) =~= seq![cur]);
            assert(emitted + seq![cur] =~= emitted.push(cur));
            emitted = emitted.push(cur);
        }
        count += 1;
    }
    if count > 0 {
        out.append("\n");
    }
    out
}

} // verus!
