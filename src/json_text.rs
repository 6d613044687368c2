use vstd::prelude::*;

verus! {

/// Lower-case hexadecimal digit for `n` in `0..16`.
pub open spec fn hex_digit(n: int) -> char {
    seq!['0', '1', '2', '3', '4', '5', '6', '7', '8', '9', 'a', 'b', 'c', 'd', 'e', 'f'][n]
}

/// How a JSON string literal writes one character: quote, backslash and
/// control characters are escaped, every other character stands for itself.
pub open spec fn escape_char(c: char) -> Seq<char> {
    if c == '"' {
        seq!['\\', '"']
    } else if c == '\\' {
        seq!['\\', '\\']
    } else if c == '\x08' {
        seq!['\\', 'b']
    } else if c == '\x0c' {
        seq!['\\', 'f']
    } else if c == '\n' {
        seq!['\\', 'n']
    } else if c == '\r' {
        seq!['\\', 'r']
    } else if c == '\t' {
        seq!['\\', 't']
    } else if (c as u32) < 0x20 {
        seq!['\\', 'u', '0', '0', hex_digit(c as u32 as int / 16), hex_digit(c as u32 as int % 16)]
    } else {
        seq![c]
    }
}

/// The escaped body of a JSON string literal.
pub open spec fn escaped(s: Seq<char>) -> Seq<char>
    decreases s.len(),
{
    if s.len() == 0 {
        seq![]
    } else {
        escape_char(s[0]) + escaped(s.drop_first())
    }
}

/// The JSON string literal that stands for `s`.
pub open spec fn quoted(s: Seq<char>) -> Seq<char> {
    seq!['"'] + escaped(s) + seq!['"']
}

/// Index of the quote that closes a string literal whose body starts at `i`,
/// a backslash taking the next character with it; -1 where there is none.
pub open spec fn literal_end(t: Seq<char>, i: int) -> int
    decreases t.len() - i,
{
    if i < 0 || i >= t.len() {
        -1
    } else if t[i] == '"' {
        i
    } else if t[i] == '\\' {
        if i + 1 < t.len() {
            literal_end(t, i + 2)
        } else {
            -1
        }
    } else {
        literal_end(t, i + 1)
    }
}

proof fn lemma_escape_char_step(t: Seq<char>, i: int, c: char)
    requires
        0 <= i,
        i + escape_char(c).len() < t.len(),
        t.subrange(i, i + escape_char(c).len()) == escape_char(c),
    ensures
        literal_end(t, i) == literal_end(t, i + escape_char(c).len()),
{
    let e = escape_char(c);
    assert(forall|j: int| 0 <= j < e.len() ==> t[i + j] == e[j]) by {
        assert forall|j: int| 0 <= j < e.len() implies t[i + j] == e[j] by {
            assert(t.subrange(i, i + e.len())[j] == t[i + j]);
        }
    }
    assert(t[i] == e[0]);
    if e.len() == 1 {
        assert(e[0] == c && c != '"' && c != '\\');
    } else {
        assert(e[0] == '\\');
        assert(literal_end(t, i) == literal_end(t, i + 2));
        if e.len() == 6 {
            let hi = c as u32 as int / 16;
            let lo = c as u32 as int % 16;
            assert(0 <= hi < 16 && 0 <= lo < 16);
            let a = hex_digit(hi);
            let b = hex_digit(lo);
            assert(a != '"' && a != '\\');
            assert(b != '"' && b != '\\');
            assert(t[i + 2] == '0' && t[i + 3] == '0' && t[i + 4] == a && t[i + 5] == b);
            assert(literal_end(t, i + 5) == literal_end(t, i + 6));
            assert(literal_end(t, i + 4) == literal_end(t, i + 5));
            assert(literal_end(t, i + 3) == literal_end(t, i + 4));
            assert(literal_end(t, i + 2) == literal_end(t, i + 3));
        }
    }
}

/// The closing quote of `quoted(s)` is found right after the escaped body.
proof fn lemma_literal_end_escaped(t: Seq<char>, i: int, s: Seq<char>)
    requires
        0 <= i,
        i + escaped(s).len() < t.len(),
        t.subrange(i, i + escaped(s).len()) == escaped(s),
        t[i + escaped(s).len()] == '"',
    ensures
        literal_end(t, i) == i + escaped(s).len(),
    decreases s.len(),
{
    if s.len() > 0 {
        let e = escape_char(s[0]);
        let rest = s.drop_first();
        assert(escaped(s) == e + escaped(rest));
        assert(t.subrange(i, i + e.len()) == e) by {
            assert(t.subrange(i, i + e.len()) =~= t.subrange(i, i + escaped(s).len()).subrange(0, e.len() as int));
        }
        assert(t.subrange(i + e.len(), i + e.len() + escaped(rest).len()) == escaped(rest)) by {
            assert(t.subrange(i + e.len(), i + e.len() + escaped(rest).len()) =~= t.subrange(
                i,
                i + escaped(s).len(),
            ).subrange(e.len() as int, escaped(s).len() as int));
        }
        lemma_escape_char_step(t, i, s[0]);
        lemma_literal_end_escaped(t, i + e.len(), rest);
    }
}

proof fn lemma_hex_digit_injective(a: int, b: int)
    requires
        0 <= a < 16,
        0 <= b < 16,
        hex_digit(a) == hex_digit(b),
    ensures
        a == b,
{
    let d = seq!['0', '1', '2', '3', '4', '5', '6', '7', '8', '9', 'a', 'b', 'c', 'd', 'e', 'f'];
    assert(d[0] == '0' && d[1] == '1' && d[2] == '2' && d[3] == '3' && d[4] == '4' && d[5] == '5'
        && d[6] == '6' && d[7] == '7' && d[8] == '8' && d[9] == '9' && d[10] == 'a' && d[11] == 'b'
        && d[12] == 'c' && d[13] == 'd' && d[14] == 'e' && d[15] == 'f');
}

/// Two characters whose escapes both start a sequence are the same character.
proof fn lemma_escape_char_prefix(x: Seq<char>, c1: char, c2: char)
    requires
        escape_char(c1).len() <= x.len(),
        escape_char(c2).len() <= x.len(),
        x.subrange(0, escape_char(c1).len() as int) == escape_char(c1),
        x.subrange(0, escape_char(c2).len() as int) == escape_char(c2),
    ensures
        c1 == c2,
{
    let e1 = escape_char(c1);
    let e2 = escape_char(c2);
    assert forall|j: int| 0 <= j < e1.len() implies x[j] == e1[j] by {
        assert(x.subrange(0, e1.len() as int)[j] == x[j]);
    }
    assert forall|j: int| 0 <= j < e2.len() implies x[j] == e2[j] by {
        assert(x.subrange(0, e2.len() as int)[j] == x[j]);
    }
    if e1.len() == 6 && e2.len() == 6 {
        let u1 = c1 as u32 as int;
        let u2 = c2 as u32 as int;
        lemma_hex_digit_injective(u1 / 16, u2 / 16);
        lemma_hex_digit_injective(u1 % 16, u2 % 16);
        assert(u1 == u2);
        assert(c1 == c2);
    } else if e1.len() == 1 {
        assert(c1 == x[0]);
        assert(e2.len() == 1);
    } else {
        assert(e1.len() == 2 || e1.len() == 6);
        assert(e2.len() == 2 || e2.len() == 6);
        assert(x[1] == e1[1] && x[1] == e2[1]);
        assert(c1 == c2);
    }
}

/// A string is determined by its escaped form.
proof fn lemma_escaped_injective(a: Seq<char>, b: Seq<char>)
    requires
        escaped(a) == escaped(b),
    ensures
        a == b,
    decreases a.len(),
{
    if a.len() == 0 {
        if b.len() > 0 {
            assert(escaped(b).len() >= escape_char(b[0]).len());
        }
        assert(b =~= a);
    } else {
        if b.len() == 0 {
            assert(escaped(a).len() >= escape_char(a[0]).len());
        } else {
            let x = escaped(a);
            let e1 = escape_char(a[0]);
            let e2 = escape_char(b[0]);
            assert(x == e1 + escaped(a.drop_first()));
            assert(x == e2 + escaped(b.drop_first()));
            assert(x.subrange(0, e1.len() as int) =~= e1);
            assert(x.subrange(0, e2.len() as int) =~= e2);
            lemma_escape_char_prefix(x, a[0], b[0]);
            assert(escaped(a.drop_first()) =~= x.subrange(e1.len() as int, x.len() as int));
            assert(escaped(b.drop_first()) =~= x.subrange(e2.len() as int, x.len() as int));
            lemma_escaped_injective(a.drop_first(), b.drop_first());
            assert(a =~= seq![a[0]] + a.drop_first());
            assert(b =~= seq![b[0]] + b.drop_first());
        }
    }
}

/// At most one string literal stands at a given position.
pub(crate) proof fn lemma_quoted_at_unique(t: Seq<char>, p: int, s1: Seq<char>, s2: Seq<char>)
    requires
        0 <= p,
        p + quoted(s1).len() <= t.len(),
        p + quoted(s2).len() <= t.len(),
        t.subrange(p, p + quoted(s1).len()) == quoted(s1),
        t.subrange(p, p + quoted(s2).len()) == quoted(s2),
    ensures
        s1 == s2,
{
    let n1: int = escaped(s1).len() as int;
    let n2: int = escaped(s2).len() as int;
    assert(t[p + 1 + n1] == t.subrange(p, p + quoted(s1).len())[1 + n1]);
    assert(t.subrange(p + 1, p + 1 + n1) =~= quoted(s1).subrange(1, 1 + n1));
    assert(quoted(s1).subrange(1, 1 + n1) =~= escaped(s1));
    lemma_literal_end_escaped(t, p + 1, s1);
    assert(t[p + 1 + n2] == t.subrange(p, p + quoted(s2).len())[1 + n2]);
    assert(t.subrange(p + 1, p + 1 + n2) =~= quoted(s2).subrange(1, 1 + n2));
    assert(quoted(s2).subrange(1, 1 + n2) =~= escaped(s2));
    lemma_literal_end_escaped(t, p + 1, s2);
    assert(n1 == n2);
    lemma_escaped_injective(s1, s2);
}

/// The error type of `serde_json`, carried through as it is.
#[verifier::external_type_specification]
#[verifier::external_body]
pub struct ExJsonError(serde_json::Error);

/// Relies on `serde_json::to_string` on a `str`: it writes the string as a JSON
/// string literal, escaping as `escape_char` says, into a `Vec<u8>`, which cannot
/// fail.
#[verifier::external_body]
pub(crate) fn json_quote(s: &str) -> (r: Result<String, serde_json::Error>)
    ensures
        r is Ok,
        r->Ok_0@ == quoted(s@),
{
    serde_json::to_string(s)
}

} // verus!
