//! Rendering the utilization report as pretty-printed JSON: an object
//! of the three fields `cpu`, `memory`, `disk`, each value a string
//! with the usual JSON escapes.

use vstd::prelude::*;

use crate::report::{ReportView, UtilizationReport};
use crate::text::digit_char;

verus! {

/// The lowercase hexadecimal digit for a value below sixteen.
pub open spec fn hex_char(n: nat) -> char {
    if n < 10 {
        digit_char(n)
    } else if n == 10 {
        'a'
    } else if n == 11 {
        'b'
    } else if n == 12 {
        'c'
    } else if n == 13 {
        'd'
    } else if n == 14 {
        'e'
    } else {
        'f'
    }
}

/// How one character appears inside a JSON string literal: quote and
/// backslash escaped, control characters by their short escape or as
/// `\u00` and two hex digits, everything else unchanged.
pub open spec fn escaped_char(c: char) -> Seq<char> {
    if c == '"' {
        "\\\""@
    } else if c == '\\' {
        "\\\\"@
    } else if c == '\u{8}' {
        "\\b"@
    } else if c == '\u{c}' {
        "\\f"@
    } else if c == '\n' {
        "\\n"@
    } else if c == '\r' {
        "\\r"@
    } else if c == '\t' {
        "\\t"@
    } else if (c as u32) < 32 {
        "\\u00"@ + seq![hex_char((c as u32 / 16) as nat), hex_char((c as u32 % 16) as nat)]
    } else {
        seq![c]
    }
}

/// A text with every character escaped for a JSON string literal.
pub open spec fn escaped(s: Seq<char>) -> Seq<char>
    decreases s.len(),
{
    if s.len() == 0 {
        Seq::<char>::empty()
    } else {
        escaped_char(s[0]) + escaped(s.skip(1))
    }
}

/// The pretty-printed JSON text of a report: two-space indentation,
/// fields in the order cpu, memory, disk.
pub open spec fn rendered(r: ReportView) -> Seq<char> {
    "{\n  \"cpu\": \""@ + escaped(r.cpu) + "\",\n  \"memory\": \""@ + escaped(r.memory)
        + "\",\n  \"disk\": \""@ + escaped(r.disk) + "\"\n}"@
}

proof fn lemma_escaped_snoc(s: Seq<char>, i: int)
    requires
        0 <= i < s.len(),
    ensures
        escaped(s.take(i + 1)) == escaped(s.take(i)) + escaped_char(s[i]),
    decreases i,
{
    if i == 0 {
        let u = s.take(1);
        assert(u[0] == s[0]);
        assert(u.skip(1) =~= Seq::<char>::empty());
        assert(escaped(u) == escaped_char(s[0]) + escaped(u.skip(1)));
        assert(escaped_char(s[0]) + Seq::<char>::empty() =~= escaped_char(s[0]));
        assert(s.take(0) =~= Seq::<char>::empty());
        assert(Seq::<char>::empty() + escaped_char(s[0]) =~= escaped_char(s[0]));
    } else {
        let u = s.skip(1);
        lemma_escaped_snoc(u, i - 1);
        let a = s.take(i + 1);
        let b = s.take(i);
        assert(a[0] == s[0] && b[0] == s[0]);
        assert(a.skip(1) =~= u.take(i));
        assert(b.skip(1) =~= u.take(i - 1));
        assert(escaped(a) == escaped_char(s[0]) + escaped(u.take(i)));
        assert(escaped(b) == escaped_char(s[0]) + escaped(u.take(i - 1)));
        assert(u[i - 1] == s[i]);
        assert(escaped(u.take(i)) == escaped(u.take(i - 1)) + escaped_char(s[i]));
        assert((escaped_char(s[0]) + escaped(u.take(i - 1))) + escaped_char(s[i]) =~= escaped_char(
            s[0],
        ) + (escaped(u.take(i - 1)) + escaped_char(s[i])));
    }
}

/// The lowercase hexadecimal digit text for a value below sixteen.
fn hex_str(d: u32) -> (r: &'static str)
    requires
        d < 16,
    ensures
        r@ == seq![hex_char(d as nat)],
{
    let r = if d == 0 {
        "0"
    } else if d == 1 {
        "1"
    } else if d == 2 {
        "2"
    } else if d == 3 {
        "3"
    } else if d == 4 {
        "4"
    } else if d == 5 {
        "5"
    } else if d == 6 {
        "6"
    } else if d == 7 {
        "7"
    } else if d == 8 {
        "8"
    } else if d == 9 {
        "9"
    } else if d == 10 {
        "a"
    } else if d == 11 {
        "b"
    } else if d == 12 {
        "c"
    } else if d == 13 {
        "d"
    } else if d == 14 {
        "e"
    } else {
        "f"
    };
    proof {
        reveal_strlit("0");
        reveal_strlit("1");
        reveal_strlit("2");
        reveal_strlit("3");
        reveal_strlit("4");
        reveal_strlit("5");
        reveal_strlit("6");
        reveal_strlit("7");
        reveal_strlit("8");
        reveal_strlit("9");
        reveal_strlit("a");
        reveal_strlit("b");
        reveal_strlit("c");
        reveal_strlit("d");
        reveal_strlit("e");
        reveal_strlit("f");
        assert(r@ =~= seq![hex_char(d as nat)]);
    }
    r
}

/// Append a text to the output with JSON string escaping applied.
fn append_escaped(out: &mut String, s: &str)
    ensures
        final(out)@ == old(out)@ + escaped(s@),
{
    let n = s.unicode_len();
    let mut i: usize = 0;
    while i < n
        invariant
            0 <= i <= n,
            n == s@.len(),
            out@ == old(out)@ + escaped(s@.take(i as int)),
        decreases n - i,
    {
        let c = s.get_char(i);
        let ghost before = out@;
        if c == '"' {
            out.append("\\\"");
        } else if c == '\\' {
            out.append("\\\\");
        } else if c == '\u{8}' {
            out.append("\\b");
        } else if c == '\u{c}' {
            out.append("\\f");
        } else if c == '\n' {
            out.append("\\n");
        } else if c == '\r' {
            out.append("\\r");
        } else if c == '\t' {
            out.append("\\t");
        } else if (c as u32) < 32 {
            let v = c as u32;
            out.append("\\u00");
            out.append(hex_str(v / 16));
            out.append(hex_str(v % 16));
            proof {
                assert(out@ =~= before + escaped_char(c));
            }
        } else {
            let piece = s.substring_char(i, i + 1);
            proof {
                assert(piece@ =~= seq![c]);
            }
            out.append(piece);
        }
        proof {
            assert(out@ =~= before + escaped_char(c));
            lemma_escaped_snoc(s@, i as int);
            assert(out@ =~= old(out)@ + escaped(s@.take(i + 1)));
        }
        i += 1;
    }
    proof {
        assert(s@.take(n as int) =~= s@);
    }
}

/// Render a report as pretty-printed JSON.
pub fn render_report(r: &UtilizationReport) -> (out: String)
    ensures
        out@ == rendered(r@),
{
    let mut out = String::new();
    out.append("{\n  \"cpu\": \"");
    append_escaped(&mut out, r.cpu.as_str());
    out.append("\",\n  \"memory\": \"");
    append_escaped(&mut out, r.memory.as_str());
    out.append("\",\n  \"disk\": \"");
    append_escaped(&mut out, r.disk.as_str());
    out.append("\"\n}");
    proof {
        assert(out@ =~= rendered(r@));
    }
    out
}

} // verus!
