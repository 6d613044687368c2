use vstd::prelude::*;

use crate::domain::{segments_view, SegmentView, TextSegment, Word};
use crate::error::AppError;
use crate::json_text::{escaped, json_quote, lemma_quoted_at_unique, quoted};
use crate::json_value::{
    json_array, json_member, json_object, json_of, json_str, members_of, parse_json, parsed_json, Json,
};
use crate::text_io::{chars_of, string_of};
use serde_json::{Map as JsonMap, Value};

verus! {

/// What opens a word segment, up to its characters.
pub open spec fn word_head() -> Seq<char> {
    "{\"type\":\"word\",\"word\":{\"characters\":"@
}

/// What stands between a word's characters and its pinyin.
pub open spec fn pinyin_key() -> Seq<char> {
    ",\"pinyin\":"@
}

/// What opens a plain segment, up to its text.
pub open spec fn plain_head() -> Seq<char> {
    "{\"type\":\"plain\",\"text\":"@
}

/// The stored form of one segment: a JSON object tagged by its `type`.
pub open spec fn segment_text(s: SegmentView) -> Seq<char> {
    match s {
        SegmentView::Word { characters, pinyin } => word_head() + quoted(characters) + pinyin_key()
            + quoted(pinyin) + seq!['}', '}'],
        SegmentView::Plain { text } => plain_head() + quoted(text) + seq!['}'],
    }
}

/// The segments from index `i` on, each after a comma but the first of the list.
pub open spec fn items_from(v: Seq<SegmentView>, i: nat) -> Seq<char>
    decreases v.len() - i,
{
    if i >= v.len() {
        seq![]
    } else {
        (if i == 0 {
            Seq::<char>::empty()
        } else {
            seq![',']
        }) + segment_text(v[i as int]) + items_from(v, i + 1)
    }
}

/// The stored form of a segment list: a JSON array of the segments, in order.
pub open spec fn list_text(v: Seq<SegmentView>) -> Seq<char> {
    seq!['['] + items_from(v, 0) + seq![']']
}

fn push_all(out: &mut Vec<char>, s: &Vec<char>)
    ensures
        final(out)@ == old(out)@ + s@,
{
    let mut i: usize = 0;
    while i < s.len()
        invariant
            0 <= i <= s@.len(),
            out@ == old(out)@ + s@.subrange(0, i as int),
        decreases s.len() - i,
    {
        out.push(s[i]);
        i = i + 1;
        assert(out@ =~= old(out)@ + s@.subrange(0, i as int));
    }
    assert(s@.subrange(0, s@.len() as int) =~= s@);
}

fn push_quoted(out: &mut Vec<char>, s: &String) -> (r: Result<(), AppError>)
    ensures
        r is Ok,
        final(out)@ == old(out)@ + quoted(s@),
{
    match json_quote(s.as_str()) {
        Ok(q) => {
            push_all(out, &chars_of(q.as_str()));
            Ok(())
        },
        Err(_) => Err(AppError::EncodingFailure),
    }
}

/// Writes a segment list in its stored form: a JSON array of objects, each
/// tagged `"word"` (with `characters` and `pinyin`) or `"plain"` (with `text`).
pub fn encode_segments(segments: &Vec<TextSegment>) -> (r: Result<String, AppError>)
    ensures
        r is Ok,
        r->Ok_0@ == list_text(segments_view(segments@)),
{
    let ghost v = segments_view(segments@);
    let word_head_chars = chars_of("{\"type\":\"word\",\"word\":{\"characters\":");
    let pinyin_key_chars = chars_of(",\"pinyin\":");
    let plain_head_chars = chars_of("{\"type\":\"plain\",\"text\":");
    let mut out: Vec<char> = Vec::new();
    out.push('[');
    let mut i: usize = 0;
    while i < segments.len()
        invariant
            v == segments_view(segments@),
            i <= segments@.len(),
            word_head_chars@ == word_head(),
            pinyin_key_chars@ == pinyin_key(),
            plain_head_chars@ == plain_head(),
            out@ + items_from(v, i as nat) == seq!['['] + items_from(v, 0),
        decreases segments.len() - i,
    {
        let ghost before = out@;
        if i > 0 {
            out.push(',');
        }
        match &segments[i] {
            TextSegment::Word { word } => {
                push_all(&mut out, &word_head_chars);
                push_quoted(&mut out, &word.characters)?;
                push_all(&mut out, &pinyin_key_chars);
                push_quoted(&mut out, &word.pinyin)?;
                out.push('}');
                out.push('}');
            },
            TextSegment::Plain { text } => {
                push_all(&mut out, &plain_head_chars);
                push_quoted(&mut out, text)?;
                out.push('}');
            },
        }
        proof {
            let sep = if i == 0 {
                Seq::<char>::empty()
            } else {
                seq![',']
            };
            assert(out@ =~= before + sep + segment_text(v[i as int]));
            assert(items_from(v, i as nat) == sep + segment_text(v[i as int]) + items_from(
                v,
                (i + 1) as nat,
            ));
            assert(out@ + items_from(v, (i + 1) as nat) =~= before + items_from(v, i as nat));
        }
        i = i + 1;
    }
    out.push(']');
    assert(out@ =~= list_text(v));
    Ok(string_of(out.as_slice()))
}

proof fn lemma_heads()
    ensures
        word_head().len() > 9,
        plain_head().len() > 9,
        word_head()[0] == '{',
        plain_head()[0] == '{',
        word_head()[9] != plain_head()[9],
{
    reveal_strlit("{\"type\":\"word\",\"word\":{\"characters\":");
    reveal_strlit("{\"type\":\"plain\",\"text\":");
}

proof fn lemma_split(t: Seq<char>, p: int, a: Seq<char>, b: Seq<char>)
    requires
        0 <= p,
        p + a.len() + b.len() <= t.len(),
        t.subrange(p, p + a.len() + b.len()) == a + b,
    ensures
        t.subrange(p, p + a.len()) == a,
        t.subrange(p + a.len(), p + a.len() + b.len()) == b,
{
    assert(t.subrange(p, p + a.len()) =~= t.subrange(p, p + a.len() + b.len()).subrange(
        0,
        a.len() as int,
    ));
    assert(t.subrange(p + a.len(), p + a.len() + b.len()) =~= t.subrange(
        p,
        p + a.len() + b.len(),
    ).subrange(a.len() as int, (a.len() + b.len()) as int));
}

/// Whether the segment `sv` stands at `p` of `t`.
pub open spec fn segment_at(t: Seq<char>, p: int, sv: SegmentView) -> bool {
    p + segment_text(sv).len() <= t.len() && t.subrange(p, p + segment_text(sv).len())
        == segment_text(sv)
}

/// The pieces of segment `sv` at `p` of `t`, one by one.
spec fn parts_at(t: Seq<char>, p: int, sv: SegmentView) -> bool {
    match sv {
        SegmentView::Word { characters, pinyin } => {
            let p1 = p + word_head().len();
            let p2 = p1 + quoted(characters).len();
            let p3 = p2 + pinyin_key().len();
            let p4 = p3 + quoted(pinyin).len();
            &&& t.subrange(p, p1) == word_head()
            &&& t.subrange(p1, p2) == quoted(characters)
            &&& t.subrange(p2, p3) == pinyin_key()
            &&& t.subrange(p3, p4) == quoted(pinyin)
            &&& p4 + 2 <= t.len()
            &&& t[p4] == '}'
            &&& t[p4 + 1] == '}'
            &&& p4 + 2 == p + segment_text(sv).len()
        },
        SegmentView::Plain { text } => {
            let p1 = p + plain_head().len();
            let p2 = p1 + quoted(text).len();
            &&& t.subrange(p, p1) == plain_head()
            &&& t.subrange(p1, p2) == quoted(text)
            &&& p2 + 1 <= t.len()
            &&& t[p2] == '}'
            &&& p2 + 1 == p + segment_text(sv).len()
        },
    }
}

proof fn lemma_parts(t: Seq<char>, p: int, sv: SegmentView)
    requires
        0 <= p,
        segment_at(t, p, sv),
    ensures
        parts_at(t, p, sv),
{
    match sv {
        SegmentView::Word { characters, pinyin } => {
            let a = word_head();
            let b = quoted(characters);
            let c = pinyin_key();
            let d = quoted(pinyin);
            let e = seq!['}', '}'];
            lemma_split(t, p, a + b + c + d, e);
            lemma_split(t, p, a + b + c, d);
            lemma_split(t, p, a + b, c);
            lemma_split(t, p, a, b);
            let p4 = p + (a + b + c + d).len();
            assert(t[p4] == t.subrange(p4, p4 + 2)[0]);
            assert(t[p4 + 1] == t.subrange(p4, p4 + 2)[1]);
        },
        SegmentView::Plain { text } => {
            let a = plain_head();
            let b = quoted(text);
            let e = seq!['}'];
            lemma_split(t, p, a + b, e);
            lemma_split(t, p, a, b);
            let p2 = p + (a + b).len();
            assert(t[p2] == t.subrange(p2, p2 + 1)[0]);
        },
    }
}

/// At most one segment stands at a given position.
proof fn lemma_segment_at_unique(t: Seq<char>, p: int, a: SegmentView, b: SegmentView)
    requires
        0 <= p,
        segment_at(t, p, a),
        segment_at(t, p, b),
    ensures
        a == b,
{
    lemma_heads();
    lemma_parts(t, p, a);
    lemma_parts(t, p, b);
    match a {
        SegmentView::Word { characters: c1, pinyin: y1 } => {
            match b {
                SegmentView::Word { characters: c2, pinyin: y2 } => {
                    let p1 = p + word_head().len();
                    lemma_quoted_at_unique(t, p1, c1, c2);
                    let p3 = p1 + quoted(c1).len() + pinyin_key().len();
                    lemma_quoted_at_unique(t, p3, y1, y2);
                },
                SegmentView::Plain { .. } => {
                    assert(t[p + 9] == t.subrange(p, p + word_head().len())[9]);
                    assert(t[p + 9] == t.subrange(p, p + plain_head().len())[9]);
                },
            }
        },
        SegmentView::Plain { text: x1 } => {
            match b {
                SegmentView::Word { .. } => {
                    assert(t[p + 9] == t.subrange(p, p + word_head().len())[9]);
                    assert(t[p + 9] == t.subrange(p, p + plain_head().len())[9]);
                },
                SegmentView::Plain { text: x2 } => {
                    lemma_quoted_at_unique(t, p + plain_head().len(), x1, x2);
                },
            }
        },
    }
}

proof fn lemma_items_unique(t: Seq<char>, p: int, a: Seq<SegmentView>, b: Seq<SegmentView>, k: nat)
    requires
        0 <= p <= t.len(),
        k <= a.len(),
        k <= b.len(),
        a.take(k as int) == b.take(k as int),
        t.subrange(p, t.len() as int) == items_from(a, k) + seq![']'],
        t.subrange(p, t.len() as int) == items_from(b, k) + seq![']'],
    ensures
        a == b,
    decreases a.len() - k,
{
    lemma_heads();
    let tail = t.subrange(p, t.len() as int);
    assert forall|v: Seq<SegmentView>| k < v.len() implies (#[trigger] items_from(v, k))[0] != ']'
        && items_from(v, k) == (if k == 0 {
        Seq::<char>::empty()
    } else {
        seq![',']
    }) + segment_text(v[k as int]) + items_from(v, k + 1) by {
        let st = segment_text(v[k as int]);
        assert(st[0] == '{') by {
            match v[k as int] {
                SegmentView::Word { .. } => {
                    assert(st[0] == word_head()[0]);
                },
                SegmentView::Plain { .. } => {
                    assert(st[0] == plain_head()[0]);
                },
            }
        }
    }
    if k == a.len() || k == b.len() {
        if k < a.len() {
            assert(tail[0] == items_from(a, k)[0]);
            assert(tail[0] == items_from(b, k)[0]);
        }
        if k < b.len() {
            assert(tail[0] == items_from(a, k)[0]);
            assert(tail[0] == items_from(b, k)[0]);
        }
        assert(a =~= a.take(k as int));
        assert(b =~= b.take(k as int));
    } else {
        let sep = if k == 0 {
            Seq::<char>::empty()
        } else {
            seq![',']
        };
        let q = p + sep.len();
        let sa = segment_text(a[k as int]);
        let sb = segment_text(b[k as int]);
        let ra = items_from(a, k + 1) + seq![']'];
        let rb = items_from(b, k + 1) + seq![']'];
        assert(tail =~= sep + sa + ra);
        assert(tail =~= sep + sb + rb);
        assert(t.subrange(q, q + sa.len()) =~= tail.subrange(sep.len() as int, (sep.len() + sa.len()) as int));
        assert(t.subrange(q, q + sb.len()) =~= tail.subrange(sep.len() as int, (sep.len() + sb.len()) as int));
        assert((sep + sa + ra).subrange(sep.len() as int, (sep.len() + sa.len()) as int) =~= sa);
        assert((sep + sb + rb).subrange(sep.len() as int, (sep.len() + sb.len()) as int) =~= sb);
        lemma_segment_at_unique(t, q, a[k as int], b[k as int]);
        assert(t.subrange(q + sa.len(), t.len() as int) =~= tail.subrange(
            (sep.len() + sa.len()) as int,
            tail.len() as int,
        ));
        assert((sep + sa + ra).subrange((sep.len() + sa.len()) as int, tail.len() as int) =~= ra);
        assert((sep + sb + rb).subrange((sep.len() + sb.len()) as int, tail.len() as int) =~= rb);
        assert(a.take(k + 1 as int) =~= a.take(k as int).push(a[k as int]));
        assert(b.take(k + 1 as int) =~= b.take(k as int).push(b[k as int]));
        lemma_items_unique(t, q + sa.len(), a, b, k + 1);
    }
}

/// A stored segment list reads back as exactly one list: two lists with the
/// same stored form are the same list.
pub proof fn lemma_list_text_determines_list(a: Seq<SegmentView>, b: Seq<SegmentView>)
    requires
        list_text(a) == list_text(b),
    ensures
        a == b,
{
    let t = list_text(a);
    assert(t.subrange(1, t.len() as int) =~= items_from(a, 0) + seq![']']);
    assert(t.subrange(1, t.len() as int) =~= items_from(b, 0) + seq![']']);
    assert(a.take(0) =~= b.take(0));
    lemma_items_unique(t, 1, a, b, 0);
}

/// Whether `x` stands somewhere in `t`.
pub open spec fn occurs_in(x: Seq<char>, t: Seq<char>) -> bool {
    exists|a: int| 0 <= a && a + x.len() <= t.len() && #[trigger] t.subrange(a, a + x.len()) == x
}

proof fn lemma_occurs_self(x: Seq<char>)
    ensures
        occurs_in(x, x),
{
    let z: int = 0;
    assert(x.subrange(z, z + x.len()) =~= x);
}

proof fn lemma_occurs_left(x: Seq<char>, a: Seq<char>, b: Seq<char>)
    requires
        occurs_in(x, a),
    ensures
        occurs_in(x, a + b),
{
    let k = choose|k: int| 0 <= k && k + x.len() <= a.len() && #[trigger] a.subrange(k, k + x.len()) == x;
    assert((a + b).subrange(k, k + x.len()) =~= a.subrange(k, k + x.len()));
}

proof fn lemma_occurs_right(x: Seq<char>, a: Seq<char>, b: Seq<char>)
    requires
        occurs_in(x, b),
    ensures
        occurs_in(x, a + b),
{
    let k = choose|k: int| 0 <= k && k + x.len() <= b.len() && #[trigger] b.subrange(k, k + x.len()) == x;
    assert((a + b).subrange(a.len() + k, a.len() + k + x.len()) =~= b.subrange(k, k + x.len()));
}

proof fn lemma_occurs_trans(x: Seq<char>, y: Seq<char>, t: Seq<char>)
    requires
        occurs_in(x, y),
        occurs_in(y, t),
    ensures
        occurs_in(x, t),
{
    let k = choose|k: int| 0 <= k && k + x.len() <= y.len() && #[trigger] y.subrange(k, k + x.len()) == x;
    let m = choose|m: int| 0 <= m && m + y.len() <= t.len() && #[trigger] t.subrange(m, m + y.len()) == y;
    assert(t.subrange(m + k, m + k + x.len()) =~= y.subrange(k, k + x.len()));
}

proof fn lemma_segment_occurs(v: Seq<SegmentView>, k: nat, i: int)
    requires
        k <= i < v.len(),
    ensures
        occurs_in(segment_text(v[i]), items_from(v, k)),
    decreases i - k,
{
    let sep = if k == 0 {
        Seq::<char>::empty()
    } else {
        seq![',']
    };
    let here = segment_text(v[k as int]);
    assert(items_from(v, k) == sep + here + items_from(v, k + 1));
    if k == i {
        lemma_occurs_self(here);
        lemma_occurs_right(here, sep, here);
        lemma_occurs_left(here, sep + here, items_from(v, k + 1));
    } else {
        lemma_segment_occurs(v, k + 1, i);
        lemma_occurs_right(segment_text(v[i]), sep + here, items_from(v, k + 1));
    }
}

/// A string's escaped form stands in its literal.
proof fn lemma_escaped_in_quoted(x: Seq<char>)
    ensures
        occurs_in(escaped(x), quoted(x)),
{
    assert(quoted(x).subrange(1, 1 + escaped(x).len() as int) =~= escaped(x));
}

/// The stored text of a list holds every string of its segments, escaped as
/// a JSON string: a plain segment's text, a word's characters and pinyin.
/// Another program that reads the stored text finds them there.
pub proof fn lemma_stored_text_holds_strings(v: Seq<SegmentView>, i: int)
    requires
        0 <= i < v.len(),
    ensures
        match v[i] {
            SegmentView::Word { characters, pinyin } => occurs_in(escaped(characters), list_text(v))
                && occurs_in(escaped(pinyin), list_text(v)),
            SegmentView::Plain { text } => occurs_in(escaped(text), list_text(v)),
        },
{
    let st = segment_text(v[i]);
    lemma_segment_occurs(v, 0, i);
    lemma_occurs_right(st, seq!['['], items_from(v, 0));
    lemma_occurs_left(st, seq!['['] + items_from(v, 0), seq![']']);
    match v[i] {
        SegmentView::Word { characters, pinyin } => {
            let qc = quoted(characters);
            let qp = quoted(pinyin);
            lemma_occurs_self(qc);
            lemma_occurs_right(qc, word_head(), qc);
            lemma_occurs_left(qc, word_head() + qc, pinyin_key());
            lemma_occurs_left(qc, word_head() + qc + pinyin_key(), qp);
            lemma_occurs_left(qc, word_head() + qc + pinyin_key() + qp, seq!['}', '}']);
            lemma_escaped_in_quoted(characters);
            lemma_occurs_trans(escaped(characters), qc, st);
            lemma_occurs_trans(escaped(characters), st, list_text(v));
            lemma_occurs_self(qp);
            lemma_occurs_right(qp, word_head() + qc + pinyin_key(), qp);
            lemma_occurs_left(qp, word_head() + qc + pinyin_key() + qp, seq!['}', '}']);
            lemma_escaped_in_quoted(pinyin);
            lemma_occurs_trans(escaped(pinyin), qp, st);
            lemma_occurs_trans(escaped(pinyin), st, list_text(v));
        },
        SegmentView::Plain { text } => {
            let qt = quoted(text);
            lemma_occurs_self(qt);
            lemma_occurs_right(qt, plain_head(), qt);
            lemma_occurs_left(qt, plain_head() + qt, seq!['}']);
            lemma_escaped_in_quoted(text);
            lemma_occurs_trans(escaped(text), qt, st);
            lemma_occurs_trans(escaped(text), st, list_text(v));
        },
    }
}

/// A string with no quote, backslash or control character is written as it is.
pub proof fn lemma_escaped_unchanged(x: Seq<char>)
    requires
        forall|j: int| 0 <= j < x.len() ==> #[trigger] x[j] != '"' && x[j] != '\\' && (x[j] as u32)
            >= 0x20,
    ensures
        escaped(x) == x,
    decreases x.len(),
{
    if x.len() > 0 {
        let rest = x.drop_first();
        assert forall|j: int| 0 <= j < rest.len() implies #[trigger] rest[j] != '"' && rest[j] != '\\'
            && (rest[j] as u32) >= 0x20 by {
            assert(rest[j] == x[j + 1]);
        }
        lemma_escaped_unchanged(rest);
        assert(x =~= seq![x[0]] + rest);
    }
}

/// The parsed form of one segment: an object whose `type` is `"word"`, with a
/// `word` object holding `characters` and `pinyin`, or `"plain"`, with `text`.
pub open spec fn segment_json(s: SegmentView) -> Json {
    match s {
        SegmentView::Word { characters, pinyin } => Json::Obj(
            map![
                "type"@ => Json::Str("word"@),
                "word"@ => Json::Obj(
                    map!["characters"@ => Json::Str(characters), "pinyin"@ => Json::Str(pinyin)],
                ),
            ],
        ),
        SegmentView::Plain { text } => Json::Obj(
            map!["type"@ => Json::Str("plain"@), "text"@ => Json::Str(text)],
        ),
    }
}

/// The parsed form of a segment list: an array of the segments' objects.
pub open spec fn segments_json(v: Seq<SegmentView>) -> Json {
    Json::Arr(v.map_values(|s: SegmentView| segment_json(s)))
}

/// The string member `k` of an object, if it has one.
pub open spec fn str_member(m: Map<Seq<char>, Json>, k: Seq<char>) -> Option<Seq<char>> {
    if m.contains_key(k) && m[k] is Str {
        Some(m[k]->Str_0)
    } else {
        None
    }
}

/// The segment that a parsed JSON value stands for, if any. The `type` member
/// picks the variant; members that the variant does not name are ignored.
pub open spec fn segment_of_json(j: Json) -> Option<SegmentView> {
    match j {
        Json::Obj(m) => {
            if str_member(m, "type"@) == Some("word"@) {
                if m.contains_key("word"@) && m["word"@] is Obj {
                    let w = m["word"@]->Obj_0;
                    if str_member(w, "characters"@) is Some && str_member(w, "pinyin"@) is Some {
                        Some(
                            SegmentView::Word {
                                characters: str_member(w, "characters"@)->0,
                                pinyin: str_member(w, "pinyin"@)->0,
                            },
                        )
                    } else {
                        None
                    }
                } else {
                    None
                }
            } else if str_member(m, "type"@) == Some("plain"@) && str_member(m, "text"@) is Some {
                Some(SegmentView::Plain { text: str_member(m, "text"@)->0 })
            } else {
                None
            }
        },
        _ => None,
    }
}

/// The segment list that a parsed JSON value stands for: an array whose
/// elements all stand for segments.
pub open spec fn segments_of_json(j: Json) -> Option<Seq<SegmentView>> {
    match j {
        Json::Arr(items) => {
            if forall|i: int| 0 <= i < items.len() ==> (#[trigger] segment_of_json(items[i])) is Some {
                Some(items.map_values(|x: Json| segment_of_json(x)->0))
            } else {
                None
            }
        },
        _ => None,
    }
}

/// The segment list that a stored text stands for: the JSON that `serde_json`
/// parses it into, read as a segment list.
pub open spec fn decoded(s: Seq<char>) -> Option<Seq<SegmentView>> {
    match parsed_json(s) {
        Some(j) => segments_of_json(j),
        None => None,
    }
}

proof fn lemma_keys()
    ensures
        "type"@ != "word"@,
        "type"@ != "text"@,
        "characters"@ != "pinyin"@,
        "word"@ != "plain"@,
{
    reveal_strlit("type");
    reveal_strlit("word");
    reveal_strlit("text");
    reveal_strlit("characters");
    reveal_strlit("pinyin");
    reveal_strlit("plain");
    assert("type"@[0] != "word"@[0]);
    assert("type"@[1] != "text"@[1]);
    assert("characters"@[0] != "pinyin"@[0]);
    assert("word"@[0] != "plain"@[0]);
}

/// The parsed form of a segment reads back as that segment.
pub proof fn lemma_segment_json_round_trip(s: SegmentView)
    ensures
        segment_of_json(segment_json(s)) == Some(s),
{
    lemma_keys();
}

/// The parsed form of a segment list reads back as that list.
pub proof fn lemma_segments_json_round_trip(v: Seq<SegmentView>)
    ensures
        segments_of_json(segments_json(v)) == Some(v),
{
    let items = v.map_values(|s: SegmentView| segment_json(s));
    assert forall|i: int| 0 <= i < items.len() implies (#[trigger] segment_of_json(items[i])) is Some by {
        lemma_segment_json_round_trip(v[i]);
    }
    assert forall|i: int| 0 <= i < v.len() implies items.map_values(
        |x: Json| segment_of_json(x)->0,
    )[i] == v[i] by {
        lemma_segment_json_round_trip(v[i]);
    }
    assert(items.map_values(|x: Json| segment_of_json(x)->0) =~= v);
}

/// Whether two character sequences are equal.
fn same_chars(a: &Vec<char>, b: &Vec<char>) -> (r: bool)
    ensures
        r == (a@ == b@),
{
    if a.len() != b.len() {
        return false;
    }
    let mut i: usize = 0;
    while i < a.len()
        invariant
            a@.len() == b@.len(),
            i <= a@.len(),
            forall|j: int| 0 <= j < i ==> a@[j] == b@[j],
        decreases a.len() - i,
    {
        if a[i] != b[i] {
            return false;
        }
        i = i + 1;
    }
    assert(a@ =~= b@);
    true
}

/// The string member `key` of an object, if it has one.
fn string_member(m: &JsonMap<String, Value>, key: &str) -> (r: Option<String>)
    ensures
        match r {
            Some(s) => str_member(members_of(*m), key@) == Some(s@),
            None => str_member(members_of(*m), key@) is None,
        },
{
    match json_member(m, key) {
        Some(v) => match json_str(v) {
            Some(s) => Some(s.to_owned()),
            None => None,
        },
        None => None,
    }
}

/// The segment that a parsed JSON value stands for, if any.
pub(crate) fn segment_from_json(j: &Value) -> (r: Option<TextSegment>)
    ensures
        match r {
            Some(s) => segment_of_json(json_of(*j)) == Some(s@),
            None => segment_of_json(json_of(*j)) is None,
        },
{
    let m = match json_object(j) {
        Some(m) => m,
        None => { return None; },
    };
    let tag = match string_member(m, "type") {
        Some(t) => chars_of(t.as_str()),
        None => { return None; },
    };
    proof {
        lemma_keys();
    }
    if same_chars(&tag, &chars_of("word")) {
        let w = match json_member(m, "word") {
            Some(w) => match json_object(w) {
                Some(w) => w,
                None => { return None; },
            },
            None => { return None; },
        };
        let characters = match string_member(w, "characters") {
            Some(c) => c,
            None => { return None; },
        };
        let pinyin = match string_member(w, "pinyin") {
            Some(p) => p,
            None => { return None; },
        };
        Some(TextSegment::Word { word: Word { characters, pinyin } })
    } else if same_chars(&tag, &chars_of("plain")) {
        match string_member(m, "text") {
            Some(text) => Some(TextSegment::Plain { text }),
            None => None,
        }
    } else {
        None
    }
}

/// Reads a segment list back from its stored text, which `serde_json` parses.
/// It succeeds exactly when the text is valid JSON (in any layout: spaces,
/// member order, escapes, members the segments do not name) for an array of
/// segment objects, and returns that list; whatever `encode_segments` writes
/// for a list reads back as that list. Anything else (not JSON, not an array,
/// an unknown tag, a missing field) fails with `DecodingFailure`.
pub fn decode_segments(text: &str) -> (r: Result<Vec<TextSegment>, AppError>)
    ensures
        (r is Ok <==> decoded(text@) is Some),
        r is Ok ==> segments_view(r->Ok_0@) == decoded(text@)->0,
        forall|v: Seq<SegmentView>| #[trigger]
            list_text(v) == text@ ==> (r is Ok && segments_view(r->Ok_0@) == v),
        r is Err ==> r->Err_0 == AppError::DecodingFailure,
{
    let parsed = match parse_json(text) {
        Ok(p) => p,
        Err(_) => { return Err(AppError::DecodingFailure); },
    };
    proof {
        assert forall|v: Seq<SegmentView>| #[trigger] list_text(v) == text@ implies decoded(text@)
            == Some(v) by {
            lemma_segments_json_round_trip(v);
        }
    }
    let items = match json_array(&parsed) {
        Some(items) => items,
        None => { return Err(AppError::DecodingFailure); },
    };
    let ghost js = json_of(parsed)->Arr_0;
    let mut out: Vec<TextSegment> = Vec::new();
    let mut i: usize = 0;
    while i < items.len()
        invariant
            i <= items@.len(),
            js == items@.map_values(|x: Value| json_of(x)),
            js == json_of(parsed)->Arr_0,
            json_of(parsed) is Arr,
            decoded(text@) == segments_of_json(json_of(parsed)),
            forall|v: Seq<SegmentView>| #[trigger]
                list_text(v) == text@ ==> decoded(text@) == Some(v),
            out@.len() == i,
            forall|j: int| 0 <= j < i ==> (#[trigger] segment_of_json(js[j])) is Some,
            forall|j: int| 0 <= j < i ==> segment_of_json(js[j]) == Some(#[trigger] out@[j]@),
        decreases items.len() - i,
    {
        match segment_from_json(&items[i]) {
            Some(s) => {
                out.push(s);
            },
            None => {
                proof {
                    assert(json_of(items@[i as int]) == js[i as int]);
                    assert(segment_of_json(js[i as int]) is None);
                    assert(segments_of_json(json_of(parsed)) is None);
                }
                return Err(AppError::DecodingFailure);
            },
        }
        i = i + 1;
    }
    proof {
        assert(segments_view(out@) =~= js.map_values(|x: Json| segment_of_json(x)->0));
    }
    Ok(out)
}

} // verus!
