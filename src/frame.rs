//! The line-oriented text frame in which events travel:
//! `event: <name>\ndata: <json>\n`.
use vstd::prelude::*;

use crate::bindings::push_char;
use vstd::string::StringExecFns;

verus! {

pub open spec fn event_tag() -> Seq<char> {
    seq!['e', 'v', 'e', 'n', 't', ':', ' ']
}

pub open spec fn data_tag() -> Seq<char> {
    seq!['d', 'a', 't', 'a', ':', ' ']
}

/// The frame that carries an event named `name` whose payload encodes to
/// `data`.
pub open spec fn frame_text(name: Seq<char>, data: Seq<char>) -> Seq<char> {
    event_tag() + name + seq!['\n'] + data_tag() + data + seq!['\n']
}

/// Relies on serde_json::to_string. On a `Value` it cannot fail: it writes
/// into a `Vec` and every object key is a string. It writes compact JSON,
/// with no whitespace between tokens and a line feed inside a string
/// escaped, so the text it returns holds no line feed.
#[verifier::external_body]
pub(crate) fn encode_json(data: &serde_json::Value) -> (r: Option<String>)
    ensures
        r is Some,
        r matches Some(s) ==> !s@.contains('\n'),
{
    serde_json::to_string(data).ok()
}

/// Builds the frame of an event named `name` whose payload encodes to `data`.
pub fn frame_of(name: &str, data: &str) -> (r: String)
    ensures
        r@ == frame_text(name@, data@),
{
    let mut s = String::new();
    s.append("event: ");
    s.append(name);
    s.append("\ndata: ");
    s.append(data);
    s.append("\n");
    proof {
        reveal_strlit("event: ");
        reveal_strlit("\ndata: ");
        reveal_strlit("\n");
        assert(s@ =~= frame_text(name@, data@));
    }
    s
}

/// `text` is the frame of an event named `name` whose encoded payload is
/// `data`, neither of them holding a line feed.
pub open spec fn is_frame_of(text: Seq<char>, name: Seq<char>, data: Seq<char>) -> bool {
    &&& !name.contains('\n')
    &&& !data.contains('\n')
    &&& text == frame_text(name, data)
}

fn chars_of(text: &str) -> (r: Vec<char>)
    ensures
        r@ == text@,
{
    let mut v: Vec<char> = Vec::new();
    for c in it: text.chars()
        invariant
            it.seq() == text@,
            v@ == text@.take(it.index()),
    {
        v.push(c);
    }
    assert(v@ =~= text@);
    v
}

fn string_of(v: &Vec<char>, lo: usize, hi: usize) -> (r: String)
    requires
        lo <= hi <= v.len(),
    ensures
        r@ == v@.subrange(lo as int, hi as int),
{
    let mut s = String::new();
    let mut k: usize = lo;
    while k < hi
        invariant
            lo <= k <= hi <= v.len(),
            s@ == v@.subrange(lo as int, k as int),
        decreases hi - k,
    {
        push_char(&mut s, v[k]);
        assert(s@ =~= v@.subrange(lo as int, k + 1));
        k = k + 1;
    }
    s
}

/// The position of the first line feed at or after `from`.
fn find_newline(v: &Vec<char>, from: usize) -> (r: Option<usize>)
    requires
        from <= v.len(),
    ensures
        r matches Some(i) ==> from <= i < v.len() && v@[i as int] == '\n' && !v@.subrange(
            from as int,
            i as int,
        ).contains('\n'),
        r is None ==> !v@.subrange(from as int, v.len() as int).contains('\n'),
{
    let mut k: usize = from;
    while k < v.len()
        invariant
            from <= k <= v.len(),
            !v@.subrange(from as int, k as int).contains('\n'),
        decreases v.len() - k,
    {
        if v[k] == '\n' {
            return Some(k);
        }
        assert(v@.subrange(from as int, k + 1) =~= v@.subrange(from as int, k as int).push(v@[k as int]));
        k = k + 1;
    }
    None
}

/// Whether `tag` stands in `v` at position `at`.
fn tag_at(v: &Vec<char>, at: usize, tag: &Vec<char>) -> (r: bool)
    requires
        at <= v.len(),
    ensures
        r == (at + tag.len() <= v.len() && v@.subrange(at as int, at + tag.len()) == tag@),
{
    if tag.len() > v.len() - at {
        return false;
    }
    let mut k: usize = 0;
    while k < tag.len()
        invariant
            k <= tag.len(),
            at + tag.len() <= v.len(),
            v@.subrange(at as int, at + k) == tag@.take(k as int),
        decreases tag.len() - k,
    {
        if v[at + k] != tag[k] {
            assert(v@.subrange(at as int, at + tag.len())[k as int] != tag@[k as int]);
            return false;
        }
        assert(v@.subrange(at as int, at + k + 1) =~= tag@.take(k + 1));
        k = k + 1;
    }
    assert(tag@.take(tag.len() as int) =~= tag@);
    true
}

/// Splits a frame back into its event name and its encoded payload. Gives
/// nothing when `text` is no frame of a name and a payload free of line
/// feeds.
pub fn decode_frame(text: &str) -> (r: Option<(String, String)>)
    ensures
        r matches Some((n, d)) ==> is_frame_of(text@, n@, d@),
        r is None ==> forall|n: Seq<char>, d: Seq<char>| !#[trigger] is_frame_of(text@, n, d),
{
    let v = chars_of(text);
    let event = vec!['e', 'v', 'e', 'n', 't', ':', ' '];
    let data = vec!['d', 'a', 't', 'a', ':', ' '];
    assert(event@ =~= event_tag());
    assert(data@ =~= data_tag());
    proof {
        lemma_frame_layout(text@);
    }
    if !tag_at(&v, 0, &event) {
        return None;
    }
    let i = match find_newline(&v, 7) {
        Some(i) => i,
        None => {
            assert forall|n: Seq<char>, d: Seq<char>| !#[trigger] is_frame_of(text@, n, d) by {
                if is_frame_of(text@, n, d) {
                    assert(v@.subrange(7, v.len() as int)[n.len() as int] == '\n');
                }
            }
            return None;
        },
    };
    // Whatever frame `text` is, its name ends at the first line feed.
    assert forall|n: Seq<char>, d: Seq<char>| #[trigger] is_frame_of(text@, n, d) implies i == 7
        + n.len() by {
        lemma_first_newline(v@, 7, i as int, 7 + n.len() as int);
    }
    if !tag_at(&v, i + 1, &data) {
        return None;
    }
    let j = match find_newline(&v, i + 7) {
        Some(j) => j,
        None => {
            assert forall|n: Seq<char>, d: Seq<char>| !#[trigger] is_frame_of(text@, n, d) by {
                if is_frame_of(text@, n, d) {
                    assert(v@.subrange(i + 7, v.len() as int)[d.len() as int] == '\n');
                }
            }
            return None;
        },
    };
    assert forall|n: Seq<char>, d: Seq<char>| #[trigger] is_frame_of(text@, n, d) implies j == i
        + 7 + d.len() by {
        lemma_first_newline(v@, i + 7, j as int, i + 7 + d.len() as int);
    }
    if j + 1 != v.len() {
        return None;
    }
    let name = string_of(&v, 7, i);
    let payload = string_of(&v, i + 7, j);
    proof {
        assert(text@ =~= frame_text(name@, payload@));
    }
    Some((name, payload))
}

/// Two positions that each hold the first line feed from `from` on are the
/// same.
proof fn lemma_first_newline(s: Seq<char>, from: int, p: int, q: int)
    requires
        0 <= from <= p < s.len(),
        0 <= from <= q < s.len(),
        s[p] == '\n',
        s[q] == '\n',
        !s.subrange(from, p).contains('\n'),
        !s.subrange(from, q).contains('\n'),
    ensures
        p == q,
{
    if p < q {
        assert(s.subrange(from, q)[p - from] == '\n');
    } else if q < p {
        assert(s.subrange(from, p)[q - from] == '\n');
    }
}

/// The positions at which a frame's parts stand.
proof fn lemma_frame_layout(text: Seq<char>)
    ensures
        forall|n: Seq<char>, d: Seq<char>| #[trigger] is_frame_of(text, n, d) ==> {
            &&& text.subrange(0, 7) == event_tag()
            &&& text[7 + (n.len() as int)] == '\n'
            &&& !text.subrange(7, 7 + (n.len() as int)).contains('\n')
            &&& text.subrange(8 + (n.len() as int), 14 + (n.len() as int)) == data_tag()
            &&& text[14 + (n.len() as int) + (d.len() as int)] == '\n'
            &&& !text.subrange(14 + (n.len() as int), 14 + (n.len() as int) + (d.len() as int)).contains('\n')
            &&& text.len() == 15 + (n.len() as int) + (d.len() as int)
        },
{
    assert forall|n: Seq<char>, d: Seq<char>| #[trigger] is_frame_of(text, n, d) implies {
        &&& text.subrange(0, 7) == event_tag()
        &&& text[7 + (n.len() as int)] == '\n'
        &&& !text.subrange(7, 7 + (n.len() as int)).contains('\n')
        &&& text.subrange(8 + (n.len() as int), 14 + (n.len() as int)) == data_tag()
        &&& text[14 + (n.len() as int) + (d.len() as int)] == '\n'
        &&& !text.subrange(14 + (n.len() as int), 14 + (n.len() as int) + (d.len() as int)).contains('\n')
        &&& text.len() == 15 + (n.len() as int) + (d.len() as int)
    } by {
        assert(text.subrange(0, 7) =~= event_tag());
        assert(text.subrange(7, 7 + (n.len() as int)) =~= n);
        assert(text.subrange(8 + (n.len() as int), 14 + (n.len() as int)) =~= data_tag());
        assert(text.subrange(14 + (n.len() as int), 14 + (n.len() as int) + (d.len() as int)) =~= d);
    }
}

/// Round trip: the frame of a name and an encoded payload, neither holding a
/// line feed, is a frame of that name and payload and of no other, so
/// `decode_frame` gives them back exactly.
pub proof fn lemma_frame_round_trip(name: Seq<char>, data: Seq<char>)
    requires
        !name.contains('\n'),
        !data.contains('\n'),
    ensures
        is_frame_of(frame_text(name, data), name, data),
        forall|n: Seq<char>, d: Seq<char>| #[trigger]
            is_frame_of(frame_text(name, data), n, d) ==> n == name && d == data,
{
    let text = frame_text(name, data);
    lemma_frame_layout(text);
    assert forall|n: Seq<char>, d: Seq<char>| #[trigger] is_frame_of(text, n, d) implies n == name
        && d == data by {
        assert(is_frame_of(text, name, data));
        lemma_first_newline(text, 7, 7 + n.len() as int, 7 + name.len() as int);
        lemma_first_newline(
            text,
            14 + n.len() as int,
            14 + n.len() + d.len() as int,
            14 + name.len() + data.len() as int,
        );
        assert(n =~= text.subrange(7, 7 + n.len() as int));
        assert(name =~= text.subrange(7, 7 + name.len() as int));
        assert(d =~= text.subrange(14 + n.len() as int, 14 + n.len() + d.len() as int));
        assert(data =~= text.subrange(14 + name.len() as int, 14 + name.len() + data.len() as int));
    }
}

} // verus!
