//! The textual form of the envelope in which an encoded context travels:
//! `{"context":[b0,b1,...],"encoding":"<tag>"}` with the bytes in decimal.

use crate::encoding::Encoding;
use vstd::prelude::*;
use vstd::utf8::{encode_utf8, partial_valid_utf8, partial_valid_utf8_extend_ascii_block, valid_utf8};

verus! {

/// The opening of an envelope: `{"context":[`.
pub open spec fn opening() -> Seq<u8> {
    seq![123u8, 34, 99, 111, 110, 116, 101, 120, 116, 34, 58, 91]
}

/// What stands between the bytes and the tag: `],"encoding":"`.
pub open spec fn middle() -> Seq<u8> {
    seq![93u8, 44, 34, 101, 110, 99, 111, 100, 105, 110, 103, 34, 58, 34]
}

/// The closing of an envelope: `"}`.
pub open spec fn closing() -> Seq<u8> {
    seq![34u8, 125]
}

/// The tag of an encoding: `Snappy`, `Lz4`, `Zstd` or `None`.
pub open spec fn tag(encoding: Encoding) -> Seq<u8> {
    match encoding {
        Encoding::Snappy => seq![83u8, 110, 97, 112, 112, 121],
        Encoding::Lz4 => seq![76u8, 122, 52],
        Encoding::Zstd => seq![90u8, 115, 116, 100],
        Encoding::Identity => seq![78u8, 111, 110, 101],
    }
}

/// Whether a byte is a decimal digit.
pub open spec fn is_digit(b: u8) -> bool {
    48 <= b <= 57
}

/// A byte in decimal, without leading zeros.
pub open spec fn decimal(b: u8) -> Seq<u8> {
    if b < 10 {
        seq![(48 + b) as u8]
    } else if b < 100 {
        seq![(48 + b / 10) as u8, (48 + b % 10) as u8]
    } else {
        seq![(48 + b / 100) as u8, (48 + (b / 10) % 10) as u8, (48 + b % 10) as u8]
    }
}

/// The bytes in decimal, separated by commas.
pub open spec fn items(bytes: Seq<u8>) -> Seq<u8>
    decreases bytes.len(),
{
    if bytes.len() == 0 {
        Seq::empty()
    } else if bytes.len() == 1 {
        decimal(bytes[0])
    } else {
        items(bytes.drop_last()) + seq![44u8] + decimal(bytes.last())
    }
}

/// What follows the bytes of an envelope: the tag between its quotes.
pub open spec fn ending(encoding: Encoding) -> Seq<u8> {
    middle() + tag(encoding) + closing()
}

/// The text of the envelope that holds `context` under `encoding`.
pub open spec fn envelope_text(context: Seq<u8>, encoding: Encoding) -> Seq<u8> {
    opening() + items(context) + ending(encoding)
}

/// Whether a text is an envelope.
pub open spec fn is_envelope(text: Seq<u8>) -> bool {
    exists|context: Seq<u8>, encoding: Encoding| text == envelope_text(context, encoding)
}

/// The opening of an envelope followed by the first `k` of its bytes.
pub open spec fn head(context: Seq<u8>, k: int) -> Seq<u8> {
    opening() + items(context.take(k))
}

/// The comma that stands before every item but the first.
pub open spec fn comma_before(k: int) -> Seq<u8> {
    if k == 0 {
        Seq::empty()
    } else {
        seq![44u8]
    }
}

/// Every byte of an envelope's text is ASCII.
pub open spec fn all_ascii(text: Seq<u8>) -> bool {
    forall|i: int| 0 <= i < text.len() ==> #[trigger] text[i] < 128
}

proof fn lemma_decimal(b: u8)
    ensures
        1 <= decimal(b).len() <= 3,
        forall|i: int| 0 <= i < decimal(b).len() ==> is_digit(#[trigger] decimal(b)[i]),
        decimal(b).len() > 1 ==> decimal(b)[0] != 48,
        decimal(b).len() == 1 ==> b == decimal(b)[0] - 48,
        decimal(b).len() == 2 ==> b == (decimal(b)[0] - 48) * 10 + (decimal(b)[1] - 48),
        decimal(b).len() == 3 ==> b == (decimal(b)[0] - 48) * 100 + (decimal(b)[1] - 48) * 10 + (
        decimal(b)[2] - 48),
{
}

proof fn lemma_head_step(context: Seq<u8>, k: int)
    requires
        0 <= k < context.len(),
    ensures
        head(context, k + 1) == head(context, k) + comma_before(k) + decimal(context[k]),
{
    let next = context.take(k + 1);
    assert(next.drop_last() =~= context.take(k));
    assert(next.last() == context[k]);
    if k == 0 {
        assert(items(context.take(0)) =~= Seq::<u8>::empty());
        assert(head(context, 1) =~= head(context, 0) + comma_before(0) + decimal(context[0]));
    } else {
        assert(head(context, k + 1) =~= head(context, k) + comma_before(k) + decimal(context[k]));
    }
}

/// The text of an envelope, seen from after its first `k` bytes: the rest
/// of the bytes and the ending.
pub open spec fn rest(context: Seq<u8>, encoding: Encoding, k: int) -> Seq<u8>
    decreases context.len() - k,
{
    if 0 <= k < context.len() {
        comma_before(k) + decimal(context[k]) + rest(context, encoding, k + 1)
    } else {
        ending(encoding)
    }
}

proof fn lemma_layout(context: Seq<u8>, encoding: Encoding, k: int)
    requires
        0 <= k <= context.len(),
    ensures
        envelope_text(context, encoding) == head(context, k) + rest(context, encoding, k),
    decreases context.len() - k,
{
    if k == context.len() {
        assert(context.take(k) =~= context);
    } else {
        lemma_layout(context, encoding, k + 1);
        lemma_head_step(context, k);
        assert(head(context, k) + comma_before(k) + decimal(context[k]) + rest(
            context,
            encoding,
            k + 1,
        ) =~= head(context, k) + (comma_before(k) + decimal(context[k]) + rest(
            context,
            encoding,
            k + 1,
        )));
    }
}

proof fn lemma_rest_starts(context: Seq<u8>, encoding: Encoding, k: int)
    requires
        0 <= k <= context.len(),
    ensures
        rest(context, encoding, k).len() > 0,
        k == context.len() ==> rest(context, encoding, k)[0] == 93,
        0 < k < context.len() ==> rest(context, encoding, k)[0] == 44,
        k == 0 < context.len() ==> is_digit(rest(context, encoding, k)[0]),
{
    if k < context.len() {
        lemma_decimal(context[k]);
        assert(decimal(context[k])[0] == decimal(context[k])[0]);
    }
}

proof fn lemma_same_number(b1: u8, t1: Seq<u8>, b2: u8, t2: Seq<u8>)
    requires
        decimal(b1) + t1 == decimal(b2) + t2,
        t1.len() > 0,
        t2.len() > 0,
        !is_digit(t1[0]),
        !is_digit(t2[0]),
    ensures
        b1 == b2,
        t1 == t2,
{
    let d1 = decimal(b1);
    let d2 = decimal(b2);
    let r1 = d1 + t1;
    let r2 = d2 + t2;
    lemma_decimal(b1);
    lemma_decimal(b2);
    if d1.len() < d2.len() {
        assert(r1[d1.len() as int] == t1[0]);
        assert(r2[d1.len() as int] == d2[d1.len() as int]);
    }
    if d2.len() < d1.len() {
        assert(r2[d2.len() as int] == t2[0]);
        assert(r1[d2.len() as int] == d1[d2.len() as int]);
    }
    assert(d1.len() == d2.len());
    assert(r1[0] == d1[0] && r2[0] == d2[0]);
    if d1.len() >= 2 {
        assert(r1[1] == d1[1] && r2[1] == d2[1]);
    }
    if d1.len() >= 3 {
        assert(r1[2] == d1[2] && r2[2] == d2[2]);
    }
    assert(b1 == b2);
    assert(t1 =~= r1.skip(d1.len() as int));
    assert(t2 =~= r2.skip(d2.len() as int));
}

proof fn lemma_same_tag(e1: Encoding, e2: Encoding)
    requires
        ending(e1) == ending(e2),
    ensures
        e1 == e2,
{
    assert(ending(e1)[14] == tag(e1)[0]);
    assert(ending(e2)[14] == tag(e2)[0]);
}

proof fn lemma_unique_from(c1: Seq<u8>, e1: Encoding, c2: Seq<u8>, e2: Encoding, k: int)
    requires
        rest(c1, e1, k) == rest(c2, e2, k),
        0 <= k <= c1.len(),
        k <= c2.len(),
        c1.take(k) == c2.take(k),
    ensures
        c1 == c2,
        e1 == e2,
    decreases c1.len() - k,
{
    lemma_rest_starts(c1, e1, k);
    lemma_rest_starts(c2, e2, k);
    let r1 = rest(c1, e1, k);
    let r2 = rest(c2, e2, k);
    if k == c1.len() && k == c2.len() {
        assert(c1.take(k) =~= c1);
        assert(c2.take(k) =~= c2);
        lemma_same_tag(e1, e2);
    } else if k == c1.len() || k == c2.len() {
        assert(r1[0] == r2[0]);
    } else {
        let t1 = rest(c1, e1, k + 1);
        let t2 = rest(c2, e2, k + 1);
        lemma_rest_starts(c1, e1, k + 1);
        lemma_rest_starts(c2, e2, k + 1);
        let m = comma_before(k);
        assert(decimal(c1[k]) + t1 =~= r1.skip(m.len() as int));
        assert(decimal(c2[k]) + t2 =~= r2.skip(m.len() as int));
        lemma_same_number(c1[k], t1, c2[k], t2);
        assert(c1.take(k + 1) =~= c1.take(k).push(c1[k]));
        assert(c2.take(k + 1) =~= c2.take(k).push(c2[k]));
        lemma_unique_from(c1, e1, c2, e2, k + 1);
    }
}

/// The text of an envelope tells its bytes and its encoding: two envelopes
/// with the same text hold the same bytes under the same encoding.
pub proof fn lemma_envelope_unique(c1: Seq<u8>, e1: Encoding, c2: Seq<u8>, e2: Encoding)
    requires
        envelope_text(c1, e1) == envelope_text(c2, e2),
    ensures
        c1 == c2,
        e1 == e2,
{
    let text = envelope_text(c1, e1);
    lemma_layout(c1, e1, 0);
    lemma_layout(c2, e2, 0);
    assert(c1.take(0) =~= c2.take(0));
    assert(rest(c1, e1, 0) =~= text.skip(head(c1, 0).len() as int));
    assert(rest(c2, e2, 0) =~= text.skip(head(c2, 0).len() as int));
    lemma_unique_from(c1, e1, c2, e2, 0);
}

/// Appends `more` to `out`.
fn append(out: &mut Vec<u8>, more: &Vec<u8>)
    ensures
        final(out)@ == old(out)@ + more@,
{
    let mut i: usize = 0;
    while i < more.len()
        invariant
            i <= more.len(),
            out@ == old(out)@ + more@.take(i as int),
        decreases more.len() - i,
    {
        out.push(more[i]);
        assert(more@.take(i + 1) =~= more@.take(i as int).push(more@[i as int]));
        i = i + 1;
    }
    assert(more@.take(more.len() as int) =~= more@);
}

/// The opening of an envelope.
fn opening_bytes() -> (r: Vec<u8>)
    ensures
        r@ == opening(),
{
    let r: Vec<u8> = vec![123u8, 34, 99, 111, 110, 116, 101, 120, 116, 34, 58, 91];
    assert(r@ =~= opening());
    r
}

/// What follows the bytes of an envelope under `encoding`.
fn ending_bytes(encoding: Encoding) -> (r: Vec<u8>)
    ensures
        r@ == ending(encoding),
{
    let mut r: Vec<u8> = vec![93u8, 44, 34, 101, 110, 99, 111, 100, 105, 110, 103, 34, 58, 34];
    assert(r@ =~= middle());
    let name: Vec<u8> = match encoding {
        Encoding::Snappy => vec![83u8, 110, 97, 112, 112, 121],
        Encoding::Lz4 => vec![76u8, 122, 52],
        Encoding::Zstd => vec![90u8, 115, 116, 100],
        Encoding::Identity => vec![78u8, 111, 110, 101],
    };
    assert(name@ =~= tag(encoding));
    append(&mut r, &name);
    r.push(34u8);
    r.push(125u8);
    assert(r@ =~= ending(encoding));
    r
}

/// Appends a byte in decimal.
fn push_decimal(out: &mut Vec<u8>, b: u8)
    ensures
        final(out)@ == old(out)@ + decimal(b),
{
    if b >= 100 {
        out.push(48 + b / 100);
        out.push(48 + (b / 10) % 10);
        out.push(48 + b % 10);
    } else if b >= 10 {
        out.push(48 + b / 10);
        out.push(48 + b % 10);
    } else {
        out.push(48 + b);
    }
    assert(out@ =~= old(out)@ + decimal(b));
}

proof fn lemma_text_ascii(context: Seq<u8>, encoding: Encoding)
    ensures
        all_ascii(envelope_text(context, encoding)),
{
    lemma_items_ascii(context);
}

proof fn lemma_items_ascii(bytes: Seq<u8>)
    ensures
        all_ascii(items(bytes)),
    decreases bytes.len(),
{
    if bytes.len() > 0 {
        lemma_decimal(bytes.last());
        lemma_decimal(bytes[0]);
        if bytes.len() > 1 {
            lemma_items_ascii(bytes.drop_last());
        }
    }
}

/// Writes the text of the envelope that holds `context` under `encoding`.
pub fn write_envelope(context: &Vec<u8>, encoding: Encoding) -> (text: Vec<u8>)
    ensures
        text@ == envelope_text(context@, encoding),
        all_ascii(text@),
{
    let mut out = opening_bytes();
    let mut k: usize = 0;
    proof {
        assert(head(context@, 0) =~= opening());
    }
    while k < context.len()
        invariant
            k <= context.len(),
            out@ == head(context@, k as int),
        decreases context.len() - k,
    {
        proof {
            lemma_head_step(context@, k as int);
        }
        if k > 0 {
            out.push(44u8);
        }
        push_decimal(&mut out, context[k]);
        assert(out@ =~= head(context@, k as int) + comma_before(k as int) + decimal(
            context@[k as int],
        ));
        k = k + 1;
    }
    let end = ending_bytes(encoding);
    append(&mut out, &end);
    proof {
        assert(context@.take(context.len() as int) =~= context@);
        lemma_text_ascii(context@, encoding);
    }
    out
}

/// Tells whether `lit` stands in `text` at `pos`, and where it ends.
fn expect(text: &[u8], pos: usize, lit: &Vec<u8>) -> (r: Option<usize>)
    requires
        pos <= text.len(),
    ensures
        r is Some <==> pos + lit.len() <= text.len() && text@.subrange(
            pos as int,
            pos + lit.len(),
        ) == lit@,
        r matches Some(end) ==> end == pos + lit.len(),
{
    if lit.len() > text.len() - pos {
        return None;
    }
    let mut i: usize = 0;
    while i < lit.len()
        invariant
            i <= lit.len(),
            pos + lit.len() <= text.len(),
            forall|j: int| 0 <= j < i ==> text@[pos + j] == lit@[j],
        decreases lit.len() - i,
    {
        if text[pos + i] != lit[i] {
            assert(text@.subrange(pos as int, pos + lit.len())[i as int] != lit@[i as int]);
            return None;
        }
        i = i + 1;
    }
    assert(text@.subrange(pos as int, pos + lit.len()) =~= lit@);
    Some(pos + lit.len())
}

/// Whether the decimal form of `b` stands in `text` at `pos` and no digit
/// follows it.
pub open spec fn number_at(text: Seq<u8>, pos: int, b: u8) -> bool {
    &&& 0 <= pos
    &&& pos + decimal(b).len() <= text.len()
    &&& text.subrange(pos, pos + decimal(b).len()) == decimal(b)
    &&& (pos + decimal(b).len() < text.len() ==> !is_digit(text[pos + decimal(b).len()]))
}

/// Reads a byte in decimal at `pos`: up to three digits without a leading
/// zero, worth at most 255. Yields the byte and where its digits end.
fn read_number(text: &[u8], pos: usize) -> (r: Option<(u8, usize)>)
    requires
        pos <= text.len(),
    ensures
        r matches Some((_, end)) ==> pos < end <= text.len(),
        forall|b: u8| #[trigger]
            number_at(text@, pos as int, b) ==> r == Some((b, (pos + decimal(b).len()) as usize)),
{
    let n: usize = text.len();
    let mut end: usize = pos;
    let mut value: u32 = 0;
    while end < n && end - pos < 4 && 48 <= text[end] && text[end] <= 57
        invariant
            pos <= end <= n,
            n == text.len(),
            end - pos <= 4,
            forall|j: int| pos <= j < end ==> is_digit(#[trigger] text@[j]),
            end - pos == 0 ==> value == 0,
            end - pos == 1 ==> value == text@[pos as int] - 48,
            end - pos == 2 ==> value == (text@[pos as int] - 48) * 10 + (text@[pos + 1] - 48),
            end - pos == 3 ==> value == (text@[pos as int] - 48) * 100 + (text@[pos + 1] - 48) * 10
                + (text@[pos + 2] - 48),
            end - pos == 4 ==> value <= 9999,
        decreases n - end,
    {
        value = value * 10 + (text[end] - 48) as u32;
        end = end + 1;
    }
    let count: usize = end - pos;
    let r = if count == 0 || count > 3 || value > 255 || (count > 1 && text[pos] == 48) {
        None
    } else {
        Some((value as u8, end))
    };
    proof {
        assert forall|b: u8| #[trigger] number_at(text@, pos as int, b) implies r == Some(
            (b, (pos + decimal(b).len()) as usize),
        ) by {
            lemma_decimal(b);
            let d = decimal(b);
            let sub = text@.subrange(pos as int, pos + d.len());
            assert(text@[pos as int] == sub[0] && is_digit(d[0]));
            if d.len() >= 2 {
                assert(text@[pos + 1] == sub[1] && is_digit(d[1]));
            }
            if d.len() >= 3 {
                assert(text@[pos + 2] == sub[2] && is_digit(d[2]));
            }
            assert(end >= pos + d.len());
            if end > pos + d.len() {
                assert(is_digit(text@[pos + d.len()]));
            }
            assert(end == pos + d.len());
        }
    }
    r
}

/// Reads the text of an envelope from its opening to its end. Where the
/// text is an envelope, this finds its bytes and its encoding.
fn scan(text: &[u8]) -> (r: Option<(Vec<u8>, Encoding)>)
    ensures
        is_envelope(text@) ==> r is Some,
        is_envelope(text@) ==> (r matches Some((context, encoding)) ==> text@ == envelope_text(
            context@,
            encoding,
        )),
{
    let n: usize = text.len();
    let ghost target: (Seq<u8>, Encoding) = choose|t: (Seq<u8>, Encoding)|
        text@ == envelope_text(t.0, t.1);
    let ghost c = target.0;
    let ghost e = target.1;
    proof {
        if is_envelope(text@) {
            let (c0, e0) = choose|c0: Seq<u8>, e0: Encoding| text@ == envelope_text(c0, e0);
            assert(text@ == envelope_text((c0, e0).0, (c0, e0).1));
            lemma_layout(c, e, 0);
            lemma_rest_starts(c, e, 0);
            assert(head(c, 0) =~= opening());
            assert(text@.subrange(0, 12) =~= opening());
        }
    }
    let open = opening_bytes();
    let mut pos: usize = match expect(text, 0, &open) {
        Some(p) => p,
        None => {
            return None;
        },
    };
    let mut out: Vec<u8> = Vec::new();
    if pos < n && 48 <= text[pos] && text[pos] <= 57 {
        proof {
            if is_envelope(text@) {
                assert(text@[12] == rest(c, e, 0)[0]);
                assert(c.len() > 0);
                assert(c.take(0) =~= Seq::<u8>::empty());
            }
        }
        loop
            invariant_except_break
                is_envelope(text@) ==> out@.len() < c.len() && out@ == c.take(out@.len() as int)
                    && pos == head(c, out@.len() as int).len() + comma_before(
                    out@.len() as int,
                ).len(),
            invariant
                n == text.len(),
                pos <= n,
                is_envelope(text@) ==> text@ == envelope_text(c, e),
            ensures
                is_envelope(text@) ==> out@ == c && pos == head(c, c.len() as int).len(),
            decreases n - pos,
        {
            let ghost k = out@.len() as int;
            proof {
                if is_envelope(text@) {
                    lemma_layout(c, e, k);
                    lemma_layout(c, e, k + 1);
                    lemma_head_step(c, k);
                    lemma_rest_starts(c, e, k + 1);
                    lemma_decimal(c[k]);
                    let h = head(c, k + 1);
                    let d = decimal(c[k]);
                    assert(h =~= head(c, k) + comma_before(k) + d);
                    assert(text@ =~= h + rest(c, e, k + 1));
                    assert(text@.subrange(pos as int, pos + d.len()) =~= d);
                    assert(text@[h.len() as int] == rest(c, e, k + 1)[0]);
                    assert(number_at(text@, pos as int, c[k]));
                }
            }
            match read_number(text, pos) {
                Some((v, end)) => {
                    out.push(v);
                    pos = end;
                },
                None => {
                    return None;
                },
            }
            proof {
                if is_envelope(text@) {
                    assert(out@ =~= c.take(k + 1));
                    assert(pos == head(c, k + 1).len());
                }
            }
            if pos < n && text[pos] == 44 {
                pos = pos + 1;
            } else {
                proof {
                    if is_envelope(text@) {
                        assert(k + 1 == c.len());
                        assert(c.take(k + 1) =~= c);
                    }
                }
                break;
            }
        }
    } else {
        proof {
            if is_envelope(text@) {
                assert(text@[12] == rest(c, e, 0)[0]);
                assert(c.len() == 0);
                assert(c.take(0) =~= c);
            }
        }
    }
    proof {
        if is_envelope(text@) {
            assert(out@.len() == c.len());
            assert(c.take(c.len() as int) =~= c);
            assert(head(c, 0) =~= opening());
            lemma_layout(c, e, c.len() as int);
            assert(pos == head(c, c.len() as int).len());
            assert(text@.subrange(pos as int, n as int) =~= ending(e));
        }
    }
    let mut found: Option<Encoding> = None;
    let snappy = ending_bytes(Encoding::Snappy);
    let lz4 = ending_bytes(Encoding::Lz4);
    let zstd = ending_bytes(Encoding::Zstd);
    let identity = ending_bytes(Encoding::Identity);
    if expect(text, pos, &snappy) == Some(n) {
        found = Some(Encoding::Snappy);
    } else if expect(text, pos, &lz4) == Some(n) {
        found = Some(Encoding::Lz4);
    } else if expect(text, pos, &zstd) == Some(n) {
        found = Some(Encoding::Zstd);
    } else if expect(text, pos, &identity) == Some(n) {
        found = Some(Encoding::Identity);
    }
    match found {
        Some(encoding) => {
            proof {
                if is_envelope(text@) {
                    assert(text@ =~= head(c, c.len() as int) + ending(encoding));
                }
            }
            Some((out, encoding))
        },
        None => None,
    }
}

/// Tells whether two sequences of bytes are the same.
fn same_bytes(a: &Vec<u8>, b: &[u8]) -> (r: bool)
    ensures
        r == (a@ == b@),
{
    if a.len() != b.len() {
        return false;
    }
    let mut i: usize = 0;
    while i < a.len()
        invariant
            i <= a.len(),
            a.len() == b.len(),
            forall|j: int| 0 <= j < i ==> a@[j] == b@[j],
        decreases a.len() - i,
    {
        if a[i] != b[i] {
            return false;
        }
        i = i + 1;
    }
    assert(a@ =~= b@);
    true
}

/// Reads an envelope: its bytes and its encoding, or nothing where the
/// text is not exactly the text of an envelope.
pub fn read_envelope(text: &[u8]) -> (r: Option<(Vec<u8>, Encoding)>)
    ensures
        r is Some <==> is_envelope(text@),
        r matches Some((context, encoding)) ==> text@ == envelope_text(context@, encoding),
{
    match scan(text) {
        Some((context, encoding)) => {
            let again = write_envelope(&context, encoding);
            if same_bytes(&again, text) {
                Some((context, encoding))
            } else {
                None
            }
        },
        None => None,
    }
}

/// Calls `String::from_utf8`. Trusted: it accepts exactly the valid UTF-8
/// sequences, and the text it makes holds the bytes it was given.
#[verifier::external_body]
fn text_from_utf8(bytes: Vec<u8>) -> (r: Option<String>)
    ensures
        r is Some <==> valid_utf8(bytes@),
        r matches Some(text) ==> encode_utf8(text@) == bytes@,
{
    String::from_utf8(bytes).ok()
}

/// The text that consists of the given ASCII bytes.
pub fn ascii_text(bytes: Vec<u8>) -> (text: String)
    requires
        all_ascii(bytes@),
    ensures
        encode_utf8(text@) == bytes@,
{
    proof {
        let whole = bytes@.len() as int;
        assert(bytes@.subrange(0, 0) =~= Seq::<u8>::empty());
        assert(partial_valid_utf8(bytes@, 0));
        partial_valid_utf8_extend_ascii_block(bytes@, 0, whole);
        assert(bytes@.subrange(0, whole) =~= bytes@);
    }
    text_from_utf8(bytes).unwrap()
}

} // verus!
