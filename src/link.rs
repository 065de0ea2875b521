use vstd::prelude::*;
use vstd::utf8::{
    decode_utf8, decode_utf8_encode_utf8, encode_utf8, encode_utf8_decode_utf8,
    encode_utf8_valid_utf8, valid_utf8,
};
use crate::instant::{
    format_rfc3339, parse_rfc3339, parsed_rfc3339, read_local_minute, rfc3339_text, Target,
};

verus! {

/// Bytes that a query component carries as they are: letters, digits and `-_.!~*'()`.
pub open spec fn is_unreserved(b: u8) -> bool {
    ||| 65 <= b <= 90
    ||| 97 <= b <= 122
    ||| 48 <= b <= 57
    ||| b == 45 || b == 95 || b == 46 || b == 33
    ||| b == 126 || b == 42 || b == 39 || b == 40 || b == 41
}

/// The upper-case hexadecimal digit for `n < 16`.
pub open spec fn hex_digit(n: u8) -> u8 {
    if n < 10 {
        (48 + n) as u8
    } else {
        (55 + n) as u8
    }
}

/// The value of a hexadecimal digit, in either case.
pub open spec fn hex_value(b: u8) -> Option<u8> {
    if 48 <= b <= 57 {
        Some((b - 48) as u8)
    } else if 65 <= b <= 70 {
        Some((b - 55) as u8)
    } else if 97 <= b <= 102 {
        Some((b - 87) as u8)
    } else {
        None
    }
}

/// One byte as a query component writes it: itself, or `%` and two hex digits.
pub open spec fn escape_byte(b: u8) -> Seq<u8> {
    if is_unreserved(b) {
        seq![b]
    } else {
        seq![37u8, hex_digit(b / 16), hex_digit(b % 16)]
    }
}

/// Percent-encoding of a byte string, as `encodeURIComponent` does it.
pub open spec fn escape(bs: Seq<u8>) -> Seq<u8>
    decreases bs.len(),
{
    if bs.len() == 0 {
        seq![]
    } else {
        escape_byte(bs[0]) + escape(bs.skip(1))
    }
}

/// Decoding of a query component: `%` and two hex digits stand for one byte,
/// `+` for a space, and every other byte for itself.
pub open spec fn unescape(bs: Seq<u8>) -> Seq<u8>
    decreases bs.len(),
{
    if bs.len() == 0 {
        seq![]
    } else if bs[0] == 37 && bs.len() >= 3 && hex_value(bs[1]) is Some && hex_value(bs[2]) is Some {
        seq![(hex_value(bs[1])->0 * 16 + hex_value(bs[2])->0) as u8] + unescape(bs.skip(3))
    } else if bs[0] == 43 {
        seq![32u8] + unescape(bs.skip(1))
    } else {
        seq![bs[0]] + unescape(bs.skip(1))
    }
}

fn hex_digit_exec(n: u8) -> (r: u8)
    requires
        n < 16,
    ensures
        r == hex_digit(n),
{
    if n < 10 {
        48 + n
    } else {
        55 + n
    }
}

fn hex_value_exec(b: u8) -> (r: Option<u8>)
    ensures
        r == hex_value(b),
{
    if 48 <= b && b <= 57 {
        Some(b - 48)
    } else if 65 <= b && b <= 70 {
        Some(b - 55)
    } else if 97 <= b && b <= 102 {
        Some(b - 87)
    } else {
        None
    }
}

fn is_unreserved_exec(b: u8) -> (r: bool)
    ensures
        r == is_unreserved(b),
{
    (65 <= b && b <= 90) || (97 <= b && b <= 122) || (48 <= b && b <= 57) || b == 45 || b == 95
        || b == 46 || b == 33 || b == 126 || b == 42 || b == 39 || b == 40 || b == 41
}

/// Appends the percent-encoding of `bs` to `out`.
fn push_escaped(out: &mut Vec<u8>, bs: &[u8])
    ensures
        final(out)@ == old(out)@ + escape(bs@),
{
    let mut i: usize = 0;
    assert(bs@.skip(0) =~= bs@);
    while i < bs.len()
        invariant
            i <= bs@.len(),
            out@ + escape(bs@.skip(i as int)) == old(out)@ + escape(bs@),
        decreases bs@.len() - i,
    {
        let b = bs[i];
        proof {
            assert(bs@.skip(i as int).skip(1) =~= bs@.skip(i + 1));
            assert(escape(bs@.skip(i as int)) == escape_byte(b) + escape(bs@.skip(i + 1)));
        }
        let ghost before = out@;
        if is_unreserved_exec(b) {
            out.push(b);
            assert(out@ =~= before + escape_byte(b));
        } else {
            out.push(37);
            out.push(hex_digit_exec(b / 16));
            out.push(hex_digit_exec(b % 16));
            assert(out@ =~= before + escape_byte(b));
        }
        assert(out@ + escape(bs@.skip(i + 1)) =~= before + escape(bs@.skip(i as int)));
        i = i + 1;
    }
    assert(bs@.skip(i as int) =~= Seq::<u8>::empty());
    assert(out@ =~= old(out)@ + escape(bs@));
}

/// The decoding of the bytes `q[lo..hi]`.
fn unescape_range(q: &[u8], lo: usize, hi: usize) -> (r: Vec<u8>)
    requires
        lo <= hi <= q@.len(),
    ensures
        r@ == unescape(q@.subrange(lo as int, hi as int)),
{
    let mut out: Vec<u8> = Vec::new();
    let mut i: usize = lo;
    while i < hi
        invariant
            lo <= i <= hi <= q@.len(),
            out@ + unescape(q@.subrange(i as int, hi as int)) == unescape(q@.subrange(lo as int, hi as int)),
        decreases hi - i,
    {
        let ghost rest = q@.subrange(i as int, hi as int);
        let b = q[i];
        if b == 37 && hi - i >= 3 {
            let h1 = hex_value_exec(q[i + 1]);
            let h2 = hex_value_exec(q[i + 2]);
            if h1.is_some() && h2.is_some() {
                let v: u8 = h1.unwrap() * 16 + h2.unwrap();
                proof {
                    assert(rest.skip(3) =~= q@.subrange(i + 3, hi as int));
                }
                out.push(v);
                i = i + 3;
                continue;
            }
        }
        proof {
            assert(rest.skip(1) =~= q@.subrange(i + 1, hi as int));
        }
        if b == 43 {
            out.push(32);
        } else {
            out.push(b);
        }
        i = i + 1;
    }
    assert(q@.subrange(i as int, hi as int) =~= Seq::<u8>::empty());
    assert(out@ =~= out@ + unescape(Seq::<u8>::empty()));
    out
}

/// A piece of a query split at its first `=` into key and value; a piece
/// without `=` is all key, with an empty value.
pub open spec fn split_pair(p: Seq<u8>) -> (Seq<u8>, Seq<u8>)
    decreases p.len(),
{
    if p.len() == 0 {
        (seq![], seq![])
    } else if p[0] == 61 {
        (seq![], p.skip(1))
    } else {
        let kv = split_pair(p.skip(1));
        (seq![p[0]] + kv.0, kv.1)
    }
}

/// The parameters a link reads: the raw bytes of `to` and of `name`.
pub type Fields = (Option<Seq<u8>>, Option<Seq<u8>>);

/// The key `to`.
pub open spec fn to_key() -> Seq<u8> {
    seq![116u8, 111u8]
}

/// The key `name`.
pub open spec fn name_key() -> Seq<u8> {
    seq![110u8, 97u8, 109u8, 101u8]
}

/// Takes in one `&`-separated piece: a later `to` or `name` replaces an earlier one.
pub open spec fn absorb(f: Fields, piece: Seq<u8>) -> Fields {
    if piece.len() == 0 {
        f
    } else {
        let key = unescape(split_pair(piece).0);
        let value = unescape(split_pair(piece).1);
        if key == to_key() {
            (Some(value), f.1)
        } else if key == name_key() {
            (f.0, Some(value))
        } else {
            f
        }
    }
}

/// Reads the rest `q` of a query, `piece` being the part of the current piece already read.
pub open spec fn scan(q: Seq<u8>, piece: Seq<u8>, f: Fields) -> Fields
    decreases q.len(),
{
    if q.len() == 0 {
        absorb(f, piece)
    } else if q[0] == 38 {
        scan(q.skip(1), seq![], absorb(f, piece))
    } else {
        scan(q.skip(1), piece.push(q[0]), f)
    }
}

/// A query without the `?` that may lead it.
pub open spec fn query_body(q: Seq<u8>) -> Seq<u8> {
    if q.len() > 0 && q[0] == 63 {
        q.skip(1)
    } else {
        q
    }
}

/// The `to` and `name` parameters of a query, decoded to bytes.
pub open spec fn query_fields(q: Seq<u8>) -> Fields {
    scan(query_body(q), seq![], (None, None))
}

pub open spec fn bytes_view(o: Option<Vec<u8>>) -> Option<Seq<u8>> {
    match o {
        Some(v) => Some(v@),
        None => None,
    }
}

/// The index of the first `=` in `q[lo..hi]`, or `hi` where there is none.
fn find_eq(q: &[u8], lo: usize, hi: usize) -> (j: usize)
    requires
        lo <= hi <= q@.len(),
    ensures
        lo <= j <= hi,
        forall|k: int| lo <= k < j ==> q@[k] != 61,
        j < hi ==> q@[j as int] == 61,
{
    let mut j: usize = lo;
    while j < hi
        invariant
            lo <= j <= hi <= q@.len(),
            forall|k: int| lo <= k < j ==> q@[k] != 61,
        decreases hi - j,
    {
        if q[j] == 61 {
            return j;
        }
        j = j + 1;
    }
    j
}

proof fn lemma_split_pair(p: Seq<u8>, j: int)
    requires
        0 <= j <= p.len(),
        forall|k: int| 0 <= k < j ==> p[k] != 61,
        j < p.len() ==> p[j] == 61,
    ensures
        split_pair(p) == (p.take(j), if j < p.len() { p.skip(j + 1) } else { seq![] }),
    decreases j,
{
    if p.len() == 0 {
        assert(p.take(j) =~= seq![]);
    } else if j == 0 {
        assert(p.take(0) =~= seq![]);
    } else {
        lemma_split_pair(p.skip(1), j - 1);
        assert(seq![p[0]] + p.skip(1).take(j - 1) =~= p.take(j));
        if j < p.len() {
            assert(p.skip(1).skip(j) =~= p.skip(j + 1));
        }
    }
}

fn is_key(k: &Vec<u8>, key: &[u8]) -> (r: bool)
    ensures
        r == (k@ == key@),
{
    if k.len() != key.len() {
        return false;
    }
    let mut i: usize = 0;
    while i < k.len()
        invariant
            k@.len() == key@.len(),
            i <= k@.len(),
            forall|m: int| 0 <= m < i ==> k@[m] == key@[m],
        decreases k@.len() - i,
    {
        if k[i] != key[i] {
            return false;
        }
        i = i + 1;
    }
    assert(k@ =~= key@);
    true
}

/// Takes in the piece `q[lo..hi]`.
fn absorb_range(q: &[u8], lo: usize, hi: usize, to: &mut Option<Vec<u8>>, name: &mut Option<Vec<u8>>)
    requires
        lo <= hi <= q@.len(),
    ensures
        (bytes_view(*final(to)), bytes_view(*final(name))) == absorb(
            (bytes_view(*old(to)), bytes_view(*old(name))),
            q@.subrange(lo as int, hi as int),
        ),
{
    if lo == hi {
        return;
    }
    let ghost piece = q@.subrange(lo as int, hi as int);
    let j = find_eq(q, lo, hi);
    proof {
        lemma_split_pair(piece, j - lo);
        assert(piece.take(j - lo) =~= q@.subrange(lo as int, j as int));
        if j < hi {
            assert(piece.skip(j - lo + 1) =~= q@.subrange(j + 1, hi as int));
        } else {
            assert(q@.subrange(hi as int, hi as int) =~= seq![]);
        }
    }
    let key = unescape_range(q, lo, j);
    let value = if j < hi { unescape_range(q, j + 1, hi) } else { unescape_range(q, hi, hi) };
    let to_bytes: [u8; 2] = [116, 111];
    let name_bytes: [u8; 4] = [110, 97, 109, 101];
    assert(to_bytes@ =~= to_key());
    assert(name_bytes@ =~= name_key());
    if is_key(&key, &to_bytes) {
        *to = Some(value);
    } else if is_key(&key, &name_bytes) {
        *name = Some(value);
    }
}

/// Finds the `to` and `name` parameters of a query, decoded to bytes.
fn read_fields(q: &[u8]) -> (r: (Option<Vec<u8>>, Option<Vec<u8>>))
    ensures
        (bytes_view(r.0), bytes_view(r.1)) == query_fields(q@),
{
    let mut to: Option<Vec<u8>> = None;
    let mut name: Option<Vec<u8>> = None;
    let mut i: usize = if q.len() > 0 && q[0] == 63 { 1 } else { 0 };
    let ghost body = query_body(q@);
    assert(body =~= q@.skip(i as int));
    let mut start: usize = i;
    assert(q@.subrange(start as int, i as int) =~= seq![]);
    while i < q.len()
        invariant
            start <= i <= q@.len(),
            scan(q@.skip(i as int), q@.subrange(start as int, i as int), (bytes_view(to), bytes_view(name)))
                == query_fields(q@),
        decreases q@.len() - i,
    {
        proof {
            assert(q@.skip(i as int).skip(1) =~= q@.skip(i + 1));
        }
        if q[i] == 38 {
            absorb_range(q, start, i, &mut to, &mut name);
            i = i + 1;
            start = i;
            assert(q@.subrange(start as int, i as int) =~= seq![]);
        } else {
            assert(q@.subrange(start as int, i as int).push(q@[i as int]) =~= q@.subrange(
                start as int,
                i + 1,
            ));
            i = i + 1;
        }
    }
    absorb_range(q, start, i, &mut to, &mut name);
    (to, name)
}

/// What `String::from_utf8_lossy` makes of a byte string.
pub uninterp spec fn lossy_utf8(b: Seq<u8>) -> Seq<char>;

/// The text a byte string stands for: its UTF-8 decoding where it is valid.
pub open spec fn bytes_text(b: Seq<u8>) -> Seq<char> {
    if valid_utf8(b) {
        decode_utf8(b)
    } else {
        lossy_utf8(b)
    }
}

/// Relies on `String::from_utf8_lossy`: valid UTF-8 is decoded as it stands,
/// and the text depends on the bytes alone.
#[verifier::external_body]
fn text_of(b: &[u8]) -> (r: String)
    ensures
        valid_utf8(b@) ==> r@ == decode_utf8(b@),
        !valid_utf8(b@) ==> r@ == lossy_utf8(b@),
{
    String::from_utf8_lossy(b).into_owned()
}

/// A link's label and target: the label as written, the target as timestamp,
/// nanoseconds and offset.
pub type LinkView = (Option<Seq<char>>, Option<(int, int, int)>);

/// The `to` and `name` parameters of a query as text.
pub open spec fn query_texts(q: Seq<u8>) -> (Option<Seq<char>>, Option<Seq<char>>) {
    let f = query_fields(q);
    (
        match f.0 {
            Some(v) => Some(bytes_text(v)),
            None => None,
        },
        match f.1 {
            Some(v) => Some(bytes_text(v)),
            None => None,
        },
    )
}

/// What a query decodes to, or `None` where its `to` does not parse.
pub open spec fn decode_spec(q: Seq<u8>) -> Option<LinkView> {
    let label = query_texts(q).1;
    match query_texts(q).0 {
        None => Some((label, None)),
        Some(v) => match parsed_rfc3339(v) {
            Some(p) => Some((label, Some(p))),
            None => None,
        },
    }
}

/// A countdown as a link carries it.
#[derive(Clone, Debug, PartialEq, Eq)]
pub struct Link {
    /// The name shown above the countdown, where one was given.
    pub label: Option<String>,
    /// The moment counted down to; `None` where the link names none.
    pub target: Option<Target>,
}

/// The `to` parameter of a link is there but is no timestamp.
#[derive(Clone, Debug, PartialEq, Eq)]
pub struct DecodeError {
    /// What the timestamp parser said.
    pub detail: String,
}

pub open spec fn text_view(o: Option<String>) -> Option<Seq<char>> {
    match o {
        Some(s) => Some(s@),
        None => None,
    }
}

impl Link {
    pub open spec fn view(&self) -> LinkView {
        (
            text_view(self.label),
            match self.target {
                Some(t) => Some((t.timestamp as int, t.nanos as int, t.offset as int)),
                None => None,
            },
        )
    }
}

/// Reads a countdown from a query string (with or without its leading `?`).
/// A missing `to` is no error: the link then names no target. A `to` that is
/// not a timestamp is the one error.
pub fn decode_query(query: &str) -> (r: Result<Link, DecodeError>)
    ensures
        r is Ok <==> decode_spec(encode_utf8(query@)) is Some,
        r matches Ok(link) ==> link.view() == decode_spec(encode_utf8(query@))->0,
        r matches Ok(link) ==> (link.target matches Some(t) ==> t.wf()),
        query_texts(encode_utf8(query@)).0 is None ==> (r matches Ok(link) && link.target is None),
        query_texts(encode_utf8(query@)).0 matches Some(v) && parsed_rfc3339(v) is None ==> r is Err,
{
    let fields = read_fields(query.as_bytes());
    let label = match &fields.1 {
        Some(v) => Some(text_of(v.as_slice())),
        None => None,
    };
    match &fields.0 {
        None => Ok(Link { label, target: None }),
        Some(v) => {
            let text = text_of(v.as_slice());
            match parse_rfc3339(text.as_str()) {
                Ok(t) => Ok(Link { label, target: Some(t) }),
                Err(detail) => Err(DecodeError { detail }),
            }
        },
    }
}

/// The query of a link: `to=` and the escaped timestamp text, then `&name=` and
/// the escaped label where the label is there and not empty.
pub open spec fn link_bytes(label: Option<Seq<char>>, text: Seq<char>) -> Seq<u8> {
    let head = to_key() + seq![61u8] + escape(encode_utf8(text));
    if label is Some && label->0.len() > 0 {
        head + seq![38u8] + name_key() + seq![61u8] + escape(encode_utf8(label->0))
    } else {
        head
    }
}

pub open spec fn is_ascii_bytes(bs: Seq<u8>) -> bool {
    forall|i: int| 0 <= i < bs.len() ==> bs[i] < 128
}

proof fn lemma_ascii_valid(bs: Seq<u8>)
    requires
        is_ascii_bytes(bs),
    ensures
        valid_utf8(bs),
    decreases bs.len(),
{
    if bs.len() > 0 {
        let b = bs[0];
        assert(b < 128);
        assert(vstd::utf8::codepoint_width_1(b) < 128) by (bit_vector)
            requires
                b < 128,
        ;
        assert(vstd::utf8::pop_first_scalar(bs) =~= bs.skip(1));
        lemma_ascii_valid(bs.skip(1));
    }
}

/// What escaping writes: ASCII, with no `&`, `=`, `+` or `?`.
pub open spec fn is_escaped_text(bs: Seq<u8>) -> bool {
    forall|i: int| 0 <= i < bs.len() ==> bs[i] < 128 && bs[i] != 38 && bs[i] != 61 && bs[i] != 43 && bs[i] != 63
}

proof fn lemma_escape_text(bs: Seq<u8>)
    ensures
        is_escaped_text(escape(bs)),
    decreases bs.len(),
{
    if bs.len() > 0 {
        lemma_escape_text(bs.skip(1));
        let e = escape_byte(bs[0]);
        assert(is_escaped_text(e));
        let r = escape(bs.skip(1));
        assert forall|i: int| 0 <= i < (e + r).len() implies (e + r)[i] < 128 && (e + r)[i] != 38
            && (e + r)[i] != 61 && (e + r)[i] != 43 && (e + r)[i] != 63 by {
            if i >= e.len() {
                assert((e + r)[i] == r[i - e.len()]);
            }
        }
    }
}

proof fn lemma_unescape_escape(bs: Seq<u8>)
    ensures
        unescape(escape(bs)) == bs,
    decreases bs.len(),
{
    if bs.len() > 0 {
        let b = bs[0];
        let rest = escape(bs.skip(1));
        lemma_unescape_escape(bs.skip(1));
        let e = escape_byte(b) + rest;
        if is_unreserved(b) {
            assert(e.skip(1) =~= rest);
        } else {
            assert(e.skip(3) =~= rest);
            assert(hex_value(hex_digit(b / 16)) == Some(b / 16));
            assert(hex_value(hex_digit(b % 16)) == Some(b % 16));
            assert((b / 16) * 16 + b % 16 == b);
        }
        assert(seq![b] + bs.skip(1) =~= bs);
    }
}

/// Reading bytes with no `&` only extends the current piece.
proof fn lemma_scan_piece(p: Seq<u8>, rest: Seq<u8>, piece: Seq<u8>, f: Fields)
    requires
        forall|i: int| 0 <= i < p.len() ==> p[i] != 38,
    ensures
        scan(p + rest, piece, f) == scan(rest, piece + p, f),
    decreases p.len(),
{
    if p.len() == 0 {
        assert(p + rest =~= rest);
        assert(piece + p =~= piece);
    } else {
        assert((p + rest).skip(1) =~= p.skip(1) + rest);
        lemma_scan_piece(p.skip(1), rest, piece.push(p[0]), f);
        assert(piece.push(p[0]) + p.skip(1) =~= piece + p);
    }
}

/// A piece `key=value`, with a key free of `=` and a value written by `escape`.
proof fn lemma_absorb_pair(f: Fields, key: Seq<u8>, bs: Seq<u8>)
    requires
        key.len() > 0,
        forall|i: int| 0 <= i < key.len() ==> key[i] != 61 && key[i] != 37 && key[i] != 43,
    ensures
        absorb(f, key + seq![61u8] + escape(bs)) == if unescape(key) == to_key() {
            (Some(bs), f.1)
        } else if unescape(key) == name_key() {
            (f.0, Some(bs))
        } else {
            f
        },
{
    let piece = key + seq![61u8] + escape(bs);
    lemma_split_pair(piece, key.len() as int);
    assert(piece.take(key.len() as int) =~= key);
    assert(piece.skip(key.len() as int + 1) =~= escape(bs));
    lemma_unescape_escape(bs);
}

proof fn lemma_unescape_plain(key: Seq<u8>)
    requires
        forall|i: int| 0 <= i < key.len() ==> key[i] != 37 && key[i] != 43,
    ensures
        unescape(key) == key,
    decreases key.len(),
{
    if key.len() > 0 {
        lemma_unescape_plain(key.skip(1));
        assert(seq![key[0]] + key.skip(1) =~= key);
    }
}

/// The fields read back from a link's query are the timestamp text and the
/// label, the label only where it is not empty.
proof fn lemma_link_fields(label: Option<Seq<char>>, text: Seq<char>)
    ensures
        query_fields(link_bytes(label, text)) == (
            Some(encode_utf8(text)),
            if label is Some && label->0.len() > 0 { Some(encode_utf8(label->0)) } else { None },
        ),
        is_ascii_bytes(link_bytes(label, text)),
{
    let tb = encode_utf8(text);
    let head = to_key() + seq![61u8] + escape(tb);
    lemma_escape_text(tb);
    lemma_unescape_plain(to_key());
    lemma_unescape_plain(name_key());
    assert(head[0] == 116);
    assert(query_body(link_bytes(label, text)) == link_bytes(label, text));
    let init: Fields = (None, None);
    lemma_absorb_pair(init, to_key(), tb);
    assert(to_key() != name_key());
    let after_to = absorb(init, head);
    assert(after_to == (Some(tb), None::<Seq<u8>>));
    assert forall|i: int| 0 <= i < head.len() implies head[i] != 38 && head[i] < 128 by {
        if i >= 3 {
            assert(head[i] == escape(tb)[i - 3]);
        }
    }
    if label is Some && label->0.len() > 0 {
        let lb = encode_utf8(label->0);
        lemma_escape_text(lb);
        let tail = name_key() + seq![61u8] + escape(lb);
        assert forall|i: int| 0 <= i < tail.len() implies tail[i] != 38 && tail[i] < 128 by {
            if i >= 5 {
                assert(tail[i] == escape(lb)[i - 5]);
            }
        }
        let q = head + seq![38u8] + tail;
        assert(link_bytes(label, text) =~= q);
        lemma_scan_piece(head, seq![38u8] + tail, seq![], init);
        assert(head + (seq![38u8] + tail) =~= q);
        assert(seq![] + head =~= head);
        assert((seq![38u8] + tail).skip(1) =~= tail);
        lemma_scan_piece(tail, seq![], seq![], after_to);
        assert(tail + seq![] =~= tail);
        assert(seq![] + tail =~= tail);
        lemma_absorb_pair(after_to, name_key(), lb);
        assert forall|i: int| 0 <= i < q.len() implies q[i] < 128 by {
            if i > head.len() {
                assert(q[i] == tail[i - head.len() - 1]);
            }
        }
    } else {
        assert(link_bytes(label, text) == head);
        lemma_scan_piece(head, seq![], seq![], init);
        assert(head + seq![] =~= head);
        assert(seq![] + head =~= head);
    }
}

/// Writes the query of a link to `target`, with `label` where it is not empty.
pub fn encode_query(label: &Option<String>, target: &Target) -> (r: String)
    requires
        target.wf(),
    ensures
        encode_utf8(r@) == link_bytes(
            text_view(*label),
            rfc3339_text(target.timestamp as int, target.nanos as int, target.offset as int),
        ),
        (label is None || label->0@.len() == 0) ==> query_fields(encode_utf8(r@)).1 is None,
{
    let text = format_rfc3339(target);
    let mut out: Vec<u8> = Vec::new();
    out.push(116);
    out.push(111);
    out.push(61);
    push_escaped(&mut out, text.as_str().as_bytes());
    match label {
        Some(l) => {
            let lb = l.as_str().as_bytes();
            if lb.len() > 0 {
                out.push(38);
                out.push(110);
                out.push(97);
                out.push(109);
                out.push(101);
                out.push(61);
                push_escaped(&mut out, lb);
            }
        },
        None => {},
    }
    proof {
        let lv = text_view(*label);
        let tv = rfc3339_text(target.timestamp as int, target.nanos as int, target.offset as int);
        if lv is Some {
            assert(encode_utf8(lv->0).len() > 0 <==> lv->0.len() > 0) by {
                if lv->0.len() > 0 {
                    vstd::utf8::encode_utf8_first_scalar(lv->0);
                } else {
                    assert(encode_utf8(lv->0) =~= seq![]) by {
                        reveal_with_fuel(encode_utf8, 1);
                    }
                }
            }
        }
        assert(out@ =~= link_bytes(lv, tv));
        lemma_link_fields(lv, tv);
        lemma_ascii_valid(out@);
        decode_utf8_encode_utf8(out@);
    }
    text_of(out.as_slice())
}

/// The label a link keeps: the given one, unless it is empty.
pub open spec fn kept_label(label: Option<Seq<char>>) -> Option<Seq<char>> {
    if label is Some && label->0.len() > 0 {
        label
    } else {
        None
    }
}

/// Decoding the query of a link gives back its label, unless the label was
/// empty, and exactly the timestamp text written for its target; the target
/// read back is what chrono parses from that text.
pub proof fn link_round_trip(label: Option<Seq<char>>, target: Target)
    requires
        target.wf(),
    ensures
        ({
            let text = rfc3339_text(target.timestamp as int, target.nanos as int, target.offset as int);
            let q = link_bytes(label, text);
            &&& query_texts(q) == (Some(text), kept_label(label))
            &&& decode_spec(q) == match parsed_rfc3339(text) {
                Some(p) => Some((kept_label(label), Some(p))),
                None => None,
            }
        }),
{
    let text = rfc3339_text(target.timestamp as int, target.nanos as int, target.offset as int);
    lemma_link_fields(label, text);
    encode_utf8_valid_utf8(text);
    encode_utf8_decode_utf8(text);
    if label is Some && label->0.len() > 0 {
        encode_utf8_valid_utf8(label->0);
        encode_utf8_decode_utf8(label->0);
    }
}

/// A link without a label, or with an empty one, has no `name` parameter.
pub proof fn link_omits_empty_label(label: Option<Seq<char>>, text: Seq<char>)
    requires
        label is None || label->0.len() == 0,
    ensures
        query_fields(link_bytes(label, text)).1 is None,
{
    lemma_link_fields(label, text);
}

proof fn lemma_encode_concat(a: Seq<char>, b: Seq<char>)
    ensures
        encode_utf8(a + b) == encode_utf8(a) + encode_utf8(b),
    decreases a.len(),
{
    if a.len() == 0 {
        assert(a + b =~= b);
        assert(encode_utf8(a) =~= seq![]);
    } else {
        assert((a + b).drop_first() =~= a.drop_first() + b);
        lemma_encode_concat(a.drop_first(), b);
    }
}

/// The heading of a countdown: the label followed by ` countdown`, or
/// `Countdown` alone where the label is missing or empty.
pub open spec fn title_spec(label: Option<Seq<char>>) -> Seq<char> {
    if label is Some && label->0.len() > 0 {
        label->0 + " countdown"@
    } else {
        "Countdown"@
    }
}

/// The heading of a countdown with the given label.
pub fn title(label: &Option<String>) -> (r: String)
    ensures
        r@ == title_spec(text_view(*label)),
{
    match label {
        Some(l) => {
            let lb = l.as_str().as_bytes();
            if lb.len() > 0 {
                let suffix = " countdown".as_bytes();
                let mut out: Vec<u8> = Vec::new();
                let mut i: usize = 0;
                while i < lb.len()
                    invariant
                        i <= lb@.len(),
                        out@ == lb@.take(i as int),
                    decreases lb@.len() - i,
                {
                    out.push(lb[i]);
                    assert(lb@.take(i + 1) =~= lb@.take(i as int).push(lb@[i as int]));
                    i = i + 1;
                }
                let mut j: usize = 0;
                while j < suffix.len()
                    invariant
                        j <= suffix@.len(),
                        out@ == lb@ + suffix@.take(j as int),
                    decreases suffix@.len() - j,
                {
                    out.push(suffix[j]);
                    assert(suffix@.take(j + 1) =~= suffix@.take(j as int).push(suffix@[j as int]));
                    j = j + 1;
                }
                proof {
                    assert(lb@.take(lb@.len() as int) =~= lb@);
                    assert(suffix@.take(suffix@.len() as int) =~= suffix@);
                    lemma_encode_concat(l@, " countdown"@);
                    encode_utf8_valid_utf8(l@ + " countdown"@);
                    encode_utf8_decode_utf8(l@ + " countdown"@);
                    if l@.len() == 0 {
                        assert(encode_utf8(l@) =~= seq![]);
                    }
                }
                return text_of(out.as_slice());
            }
            proof {
                if l@.len() > 0 {
                    vstd::utf8::encode_utf8_first_scalar(l@);
                }
            }
            "Countdown".to_owned()
        },
        None => "Countdown".to_owned(),
    }
}

/// Makes the query of a new countdown from the form's name and its local date
/// and time (`YYYY-MM-DDTHH:MM`), read in the machine's time zone. `None` where
/// that date and time does not name exactly one moment there.
pub fn create_link(name: &str, local: &str) -> (r: Option<String>)
    ensures
        r matches Some(q) ==> exists|t: Target|
            t.wf() && t.nanos == 0 && encode_utf8(q@) == link_bytes(
                Some(name@),
                rfc3339_text(t.timestamp as int, t.nanos as int, t.offset as int),
            ),
{
    match read_local_minute(local) {
        Some(t) => {
            let label = Some(name.to_owned());
            Some(encode_query(&label, &t))
        },
        None => None,
    }
}

} // verus!
