//! Framing: texts written one after the other so that they can be told
//! apart again. Each text is written as the number of its bytes in
//! decimal, a colon, and the bytes; a list is written as the number of its
//! texts in decimal, a colon, and the texts.

use crate::env::lemma_names_by_bytes;
use crate::output::{decimal_digits, lemma_decimal_digits_shape, lemma_digits_round_trip, push_decimal};
use vstd::prelude::*;
use vstd::string::*;
use vstd::utf8::*;

verus! {

/// The number `n` as the head of a frame: its decimal digits and a colon.
pub open spec fn frame_head(n: nat) -> Seq<u8> {
    decimal_digits(n) + seq![58u8]
}

/// One text in its frame.
pub open spec fn framed(text: Seq<char>) -> Seq<u8> {
    frame_head(encode_utf8(text).len()) + encode_utf8(text)
}

/// The frames of `texts`, one after the other.
pub open spec fn framed_each(texts: Seq<Seq<char>>) -> Seq<u8>
    decreases texts.len(),
{
    if texts.len() == 0 {
        Seq::<u8>::empty()
    } else {
        framed(texts[0]) + framed_each(texts.drop_first())
    }
}

/// A list of texts in its frame.
pub open spec fn framed_list(texts: Seq<Seq<char>>) -> Seq<u8> {
    frame_head(texts.len()) + framed_each(texts)
}

/// A frame head can be read back: what follows equal heads is equal, and
/// bytes that begin with two heads begin with the same head.
pub proof fn lemma_frame_head_read_back(m: nat, x: Seq<u8>, n: nat, y: Seq<u8>)
    requires
        frame_head(m) + x == frame_head(n) + y,
    ensures
        m == n,
        x == y,
{
    let s: Seq<u8> = frame_head(m) + x;
    let dm: Seq<u8> = decimal_digits(m);
    let dn: Seq<u8> = decimal_digits(n);
    lemma_decimal_digits_shape(m);
    lemma_decimal_digits_shape(n);
    assert(s.subrange(0, dm.len() as int) =~= dm);
    assert(s[dm.len() as int] == 58u8);
    lemma_digits_round_trip(s, 0, m);
    let t: Seq<u8> = frame_head(n) + y;
    assert(t.subrange(0, dn.len() as int) =~= dn);
    assert(t[dn.len() as int] == 58u8);
    lemma_digits_round_trip(t, 0, n);
    assert(x =~= s.skip(dm.len() as int + 1));
    assert(y =~= t.skip(dn.len() as int + 1));
}

/// A framed text can be read back.
pub proof fn lemma_framed_read_back(a: Seq<char>, x: Seq<u8>, b: Seq<char>, y: Seq<u8>)
    requires
        framed(a) + x == framed(b) + y,
    ensures
        a == b,
        x == y,
{
    let ea: Seq<u8> = encode_utf8(a);
    let eb: Seq<u8> = encode_utf8(b);
    assert(framed(a) + x =~= frame_head(ea.len()) + (ea + x));
    assert(framed(b) + y =~= frame_head(eb.len()) + (eb + y));
    lemma_frame_head_read_back(ea.len(), ea + x, eb.len(), eb + y);
    assert(ea =~= (ea + x).take(ea.len() as int));
    assert(eb =~= (eb + y).take(eb.len() as int));
    assert(x =~= (ea + x).skip(ea.len() as int));
    assert(y =~= (eb + y).skip(eb.len() as int));
    lemma_names_by_bytes(a, b);
}

/// As many framed texts as were written can be read back.
pub proof fn lemma_framed_each_read_back(
    a: Seq<Seq<char>>,
    x: Seq<u8>,
    b: Seq<Seq<char>>,
    y: Seq<u8>,
)
    requires
        a.len() == b.len(),
        framed_each(a) + x == framed_each(b) + y,
    ensures
        a == b,
        x == y,
    decreases a.len(),
{
    if a.len() == 0 {
        assert(a =~= b);
        assert(x =~= framed_each(a) + x);
        assert(y =~= framed_each(b) + y);
    } else {
        let ra: Seq<Seq<char>> = a.drop_first();
        let rb: Seq<Seq<char>> = b.drop_first();
        assert(framed_each(a) + x =~= framed(a[0]) + (framed_each(ra) + x));
        assert(framed_each(b) + y =~= framed(b[0]) + (framed_each(rb) + y));
        lemma_framed_read_back(a[0], framed_each(ra) + x, b[0], framed_each(rb) + y);
        lemma_framed_each_read_back(ra, x, rb, y);
        assert(a =~= seq![a[0]] + ra);
        assert(b =~= seq![b[0]] + rb);
    }
}

/// A framed list can be read back.
pub proof fn lemma_framed_list_read_back(
    a: Seq<Seq<char>>,
    x: Seq<u8>,
    b: Seq<Seq<char>>,
    y: Seq<u8>,
)
    requires
        framed_list(a) + x == framed_list(b) + y,
    ensures
        a == b,
        x == y,
{
    assert(framed_list(a) + x =~= frame_head(a.len()) + (framed_each(a) + x));
    assert(framed_list(b) + y =~= frame_head(b.len()) + (framed_each(b) + y));
    lemma_frame_head_read_back(a.len(), framed_each(a) + x, b.len(), framed_each(b) + y);
    lemma_framed_each_read_back(a, x, b, y);
}

/// Writing one more text adds its frame at the end.
pub proof fn lemma_framed_each_push(texts: Seq<Seq<char>>, text: Seq<char>)
    ensures
        framed_each(texts.push(text)) == framed_each(texts) + framed(text),
    decreases texts.len(),
{
    let longer: Seq<Seq<char>> = texts.push(text);
    if texts.len() == 0 {
        assert(longer.drop_first() =~= Seq::<Seq<char>>::empty());
        assert(framed_each(longer.drop_first()) =~= Seq::<u8>::empty());
        assert(longer[0] == text);
        assert(framed_each(longer) =~= framed(text));
        assert(framed_each(texts) + framed(text) =~= framed(text));
    } else {
        assert(longer.drop_first() =~= texts.drop_first().push(text));
        lemma_framed_each_push(texts.drop_first(), text);
        assert(framed_each(longer) =~= framed(texts[0]) + (framed_each(texts.drop_first())
            + framed(text)));
        assert(framed_each(texts) + framed(text) =~= framed(texts[0]) + (framed_each(
            texts.drop_first(),
        ) + framed(text)));
    }
}

/// Adds the head of a frame for `n` to `out`.
pub fn append_frame_head(out: &mut Vec<u8>, n: usize)
    ensures
        final(out)@ == old(out)@ + frame_head(n as nat),
{
    push_decimal(out, n as u64);
    out.push(58u8);
    assert(final(out)@ =~= old(out)@ + frame_head(n as nat));
}

/// Adds `text` in its frame to `out`.
pub fn append_framed(out: &mut Vec<u8>, text: &str)
    ensures
        final(out)@ == old(out)@ + framed(text@),
{
    let bytes: &[u8] = text.as_bytes();
    append_frame_head(out, bytes.len());
    out.extend_from_slice(bytes);
    assert(final(out)@ =~= old(out)@ + framed(text@));
}

/// Adds the list `texts` in its frame to `out`.
pub fn append_framed_list(out: &mut Vec<u8>, texts: &Vec<String>)
    ensures
        final(out)@ == old(out)@ + framed_list(texts.deep_view()),
{
    let ghost all: Seq<Seq<char>> = texts.deep_view();
    append_frame_head(out, texts.len());
    let ghost start: Seq<u8> = out@;
    let mut i: usize = 0;
    assert(all.take(0) =~= Seq::<Seq<char>>::empty());
    assert(out@ =~= start + framed_each(all.take(0)));
    while i < texts.len()
        invariant
            i <= texts@.len(),
            all == texts.deep_view(),
            out@ == start + framed_each(all.take(i as int)),
        decreases texts@.len() - i,
    {
        append_framed(out, texts[i].as_str());
        proof {
            assert(all.take(i + 1) =~= all.take(i as int).push(texts@[i as int]@));
            lemma_framed_each_push(all.take(i as int), texts@[i as int]@);
            assert(out@ =~= start + framed_each(all.take(i + 1)));
        }
        i += 1;
    }
    assert(all.take(i as int) =~= all);
    assert(final(out)@ =~= old(out)@ + framed_list(all));
}

} // verus!
