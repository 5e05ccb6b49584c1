//! Lexicographic ordering of byte and character sequences, and the proof that
//! UTF-8 encoding preserves it.

use vstd::prelude::*;
use vstd::utf8::encode_scalar;
use vstd::utf8::encode_utf8;
use vstd::utf8::has_width_1_encoding;
use vstd::utf8::has_width_2_encoding;
use vstd::utf8::has_width_3_encoding;
use vstd::utf8::has_width_4_encoding;
use vstd::utf8::is_scalar;
use vstd::utf8::last_continuation_byte;
use vstd::utf8::leading_byte_width_1;
use vstd::utf8::leading_byte_width_2;
use vstd::utf8::leading_byte_width_3;
use vstd::utf8::leading_byte_width_4;
use vstd::utf8::second_last_continuation_byte;
use vstd::utf8::third_last_continuation_byte;
use vstd::utf8::char_is_scalar;
use vstd::utf8::char_u32_cast;

verus! {

/// Strict lexicographic order on byte sequences: a proper prefix comes first,
/// otherwise the first differing byte decides.
pub open spec fn byte_lex_lt(a: Seq<u8>, b: Seq<u8>) -> bool
    decreases b.len(),
{
    if b.len() == 0 {
        false
    } else if a.len() == 0 {
        true
    } else if a[0] != b[0] {
        a[0] < b[0]
    } else {
        byte_lex_lt(a.drop_first(), b.drop_first())
    }
}

/// Strict lexicographic order on character sequences, by Unicode scalar value.
/// This is the standard ordering of Rust text values.
pub open spec fn char_lex_lt(a: Seq<char>, b: Seq<char>) -> bool
    decreases b.len(),
{
    if b.len() == 0 {
        false
    } else if a.len() == 0 {
        true
    } else if a[0] != b[0] {
        a[0] < b[0]
    } else {
        char_lex_lt(a.drop_first(), b.drop_first())
    }
}

/// Dropping an equal prefix from both sequences does not change their
/// lexicographic order.
pub proof fn lemma_lex_skip(a: Seq<u8>, b: Seq<u8>, i: int)
    requires
        0 <= i <= a.len(),
        i <= b.len(),
        forall|j: int| 0 <= j < i ==> a[j] == b[j],
    ensures
        byte_lex_lt(a, b) == byte_lex_lt(a.skip(i), b.skip(i)),
    decreases i,
{
    if i == 0 {
        assert(a.skip(0) =~= a);
        assert(b.skip(0) =~= b);
    } else {
        assert(a[0] == b[0]);
        assert(a.drop_first().skip(i - 1) =~= a.skip(i));
        assert(b.drop_first().skip(i - 1) =~= b.skip(i));
        lemma_lex_skip(a.drop_first(), b.drop_first(), i - 1);
    }
}

// The leading byte of an encoding lies in a range determined by the width,
// and the ranges of the four widths are disjoint and ascending.
proof fn lemma_leading_ranges(c: u32)
    by (bit_vector)
    ensures
        has_width_1_encoding(c) ==> leading_byte_width_1(c) <= 0x7f,
        has_width_2_encoding(c) ==> 0xc2 <= leading_byte_width_2(c) <= 0xdf,
        has_width_3_encoding(c) ==> 0xe0 <= leading_byte_width_3(c) <= 0xef,
        has_width_4_encoding(c) ==> 0xf0 <= leading_byte_width_4(c) <= 0xf4,
{
}

// For scalars of equal width, numeric order agrees with lexicographic order
// of the encoded bytes.
proof fn lemma_order_w1(c: u32, d: u32)
    by (bit_vector)
    requires
        has_width_1_encoding(c),
        has_width_1_encoding(d),
    ensures
        (c < d) <==> (leading_byte_width_1(c) < leading_byte_width_1(d)),
{
}

proof fn lemma_order_w2(c: u32, d: u32)
    by (bit_vector)
    requires
        has_width_2_encoding(c),
        has_width_2_encoding(d),
    ensures
        (c < d) <==> (leading_byte_width_2(c) < leading_byte_width_2(d) || (leading_byte_width_2(c)
            == leading_byte_width_2(d) && last_continuation_byte(c) < last_continuation_byte(d))),
{
}

proof fn lemma_order_w3(c: u32, d: u32)
    by (bit_vector)
    requires
        has_width_3_encoding(c),
        has_width_3_encoding(d),
    ensures
        (c < d) <==> (leading_byte_width_3(c) < leading_byte_width_3(d) || (leading_byte_width_3(c)
            == leading_byte_width_3(d) && (second_last_continuation_byte(c)
            < second_last_continuation_byte(d) || (second_last_continuation_byte(c)
            == second_last_continuation_byte(d) && last_continuation_byte(c)
            < last_continuation_byte(d))))),
{
}

proof fn lemma_order_w4(c: u32, d: u32)
    by (bit_vector)
    requires
        has_width_4_encoding(c),
        has_width_4_encoding(d),
    ensures
        (c < d) <==> (leading_byte_width_4(c) < leading_byte_width_4(d) || (leading_byte_width_4(c)
            == leading_byte_width_4(d) && (third_last_continuation_byte(c)
            < third_last_continuation_byte(d) || (third_last_continuation_byte(c)
            == third_last_continuation_byte(d) && (second_last_continuation_byte(c)
            < second_last_continuation_byte(d) || (second_last_continuation_byte(c)
            == second_last_continuation_byte(d) && last_continuation_byte(c)
            < last_continuation_byte(d))))))),
{
}

// One comparison step of the lexicographic order across a concatenation.
proof fn lemma_lex_step(u: Seq<u8>, v: Seq<u8>, s: Seq<u8>, t: Seq<u8>)
    requires
        u.len() > 0,
        v.len() > 0,
    ensures
        byte_lex_lt(u + s, v + t) == (if u[0] != v[0] {
            u[0] < v[0]
        } else {
            byte_lex_lt(u.drop_first() + s, v.drop_first() + t)
        }),
{
    assert((u + s).len() > 0);
    assert((v + t).len() > 0);
    assert((u + s)[0] == u[0]);
    assert((v + t)[0] == v[0]);
    if u[0] == v[0] {
        assert((u + s).drop_first() =~= u.drop_first() + s);
        assert((v + t).drop_first() =~= v.drop_first() + t);
    }
}

proof fn lemma_lex_empty_concat(s: Seq<u8>, t: Seq<u8>)
    ensures
        byte_lex_lt(Seq::<u8>::empty() + s, Seq::<u8>::empty() + t) == byte_lex_lt(s, t),
{
    assert(Seq::<u8>::empty() + s =~= s);
    assert(Seq::<u8>::empty() + t =~= t);
}

// Comparing two byte sequences that each start with the encoding of one
// scalar: the scalars decide, and equal scalars pass the decision on to the
// tails. This is where the variable width of UTF-8 is dealt with: leading
// bytes of different widths lie in disjoint ranges that are ordered the same
// way as the scalar ranges they encode.
proof fn lemma_scalar_encoding_order(c: u32, d: u32, s: Seq<u8>, t: Seq<u8>)
    requires
        is_scalar(c),
        is_scalar(d),
    ensures
        byte_lex_lt(encode_scalar(c) + s, encode_scalar(d) + t) == (if c == d {
            byte_lex_lt(s, t)
        } else {
            c < d
        }),
{
    let ec = encode_scalar(c);
    let ed = encode_scalar(d);
    lemma_leading_ranges(c);
    lemma_leading_ranges(d);
    lemma_lex_step(ec, ed, s, t);
    if has_width_1_encoding(c) && has_width_1_encoding(d) {
        lemma_order_w1(c, d);
        lemma_order_w1(d, c);
        assert(ec =~= seq![leading_byte_width_1(c)]);
        assert(ed =~= seq![leading_byte_width_1(d)]);
        if ec[0] == ed[0] {
            assert(ec.drop_first() =~= Seq::<u8>::empty());
            assert(ed.drop_first() =~= Seq::<u8>::empty());
            lemma_lex_empty_concat(s, t);
        }
    } else if has_width_2_encoding(c) && has_width_2_encoding(d) {
        lemma_order_w2(c, d);
        lemma_order_w2(d, c);
        assert(ec =~= seq![leading_byte_width_2(c), last_continuation_byte(c)]);
        assert(ed =~= seq![leading_byte_width_2(d), last_continuation_byte(d)]);
        if ec[0] == ed[0] {
            assert(ec.drop_first() =~= seq![last_continuation_byte(c)]);
            assert(ed.drop_first() =~= seq![last_continuation_byte(d)]);
            lemma_lex_step(ec.drop_first(), ed.drop_first(), s, t);
            if last_continuation_byte(c) == last_continuation_byte(d) {
                assert(ec.drop_first().drop_first() =~= Seq::<u8>::empty());
                assert(ed.drop_first().drop_first() =~= Seq::<u8>::empty());
                lemma_lex_empty_concat(s, t);
            }
        }
    } else if has_width_3_encoding(c) && has_width_3_encoding(d) {
        lemma_order_w3(c, d);
        lemma_order_w3(d, c);
        let c1 = ec.drop_first();
        let d1 = ed.drop_first();
        assert(ec =~= seq![
            leading_byte_width_3(c),
            second_last_continuation_byte(c),
            last_continuation_byte(c),
        ]);
        assert(ed =~= seq![
            leading_byte_width_3(d),
            second_last_continuation_byte(d),
            last_continuation_byte(d),
        ]);
        if ec[0] == ed[0] {
            lemma_lex_step(c1, d1, s, t);
            if c1[0] == d1[0] {
                assert(c1.drop_first() =~= seq![last_continuation_byte(c)]);
                assert(d1.drop_first() =~= seq![last_continuation_byte(d)]);
                lemma_lex_step(c1.drop_first(), d1.drop_first(), s, t);
                if last_continuation_byte(c) == last_continuation_byte(d) {
                    assert(c1.drop_first().drop_first() =~= Seq::<u8>::empty());
                    assert(d1.drop_first().drop_first() =~= Seq::<u8>::empty());
                    lemma_lex_empty_concat(s, t);
                }
            }
        }
    } else if has_width_4_encoding(c) && has_width_4_encoding(d) {
        lemma_order_w4(c, d);
        lemma_order_w4(d, c);
        let c1 = ec.drop_first();
        let d1 = ed.drop_first();
        let c2 = c1.drop_first();
        let d2 = d1.drop_first();
        assert(ec =~= seq![
            leading_byte_width_4(c),
            third_last_continuation_byte(c),
            second_last_continuation_byte(c),
            last_continuation_byte(c),
        ]);
        assert(ed =~= seq![
            leading_byte_width_4(d),
            third_last_continuation_byte(d),
            second_last_continuation_byte(d),
            last_continuation_byte(d),
        ]);
        if ec[0] == ed[0] {
            lemma_lex_step(c1, d1, s, t);
            if c1[0] == d1[0] {
                lemma_lex_step(c2, d2, s, t);
                if c2[0] == d2[0] {
                    assert(c2.drop_first() =~= seq![last_continuation_byte(c)]);
                    assert(d2.drop_first() =~= seq![last_continuation_byte(d)]);
                    lemma_lex_step(c2.drop_first(), d2.drop_first(), s, t);
                    if last_continuation_byte(c) == last_continuation_byte(d) {
                        assert(c2.drop_first().drop_first() =~= Seq::<u8>::empty());
                        assert(d2.drop_first().drop_first() =~= Seq::<u8>::empty());
                        lemma_lex_empty_concat(s, t);
                    }
                }
            }
        }
    } else {
        // Different widths: the leading bytes differ, and both the leading
        // bytes and the scalar values are ordered by width.
        assert(ec[0] != ed[0]);
        assert(byte_lex_lt(ec + s, ed + t) == (ec[0] < ed[0]));
        assert((ec[0] < ed[0]) == (c < d));
        assert(c != d);
    }
}

/// UTF-8 encoding preserves lexicographic order: two character sequences
/// compare exactly as their encodings do.
pub proof fn lemma_utf8_order(a: Seq<char>, b: Seq<char>)
    ensures
        byte_lex_lt(encode_utf8(a), encode_utf8(b)) == char_lex_lt(a, b),
    decreases a.len() + b.len(),
{
    if b.len() == 0 {
        assert(encode_utf8(b).len() == 0);
    } else if a.len() == 0 {
        assert(encode_utf8(a).len() == 0);
        char_is_scalar(b[0]);
        lemma_leading_ranges(b[0] as u32);
        assert(encode_scalar(b[0] as u32).len() >= 1);
        assert(encode_utf8(b).len() >= 1);
    } else {
        let c = a[0] as u32;
        let d = b[0] as u32;
        char_is_scalar(a[0]);
        char_is_scalar(b[0]);
        lemma_scalar_encoding_order(c, d, encode_utf8(a.drop_first()), encode_utf8(b.drop_first()));
        if a[0] == b[0] {
            lemma_utf8_order(a.drop_first(), b.drop_first());
        } else {
            char_u32_cast(a[0], c);
            char_u32_cast(b[0], d);
            assert(c != d);
            assert((a[0] < b[0]) == (c < d));
        }
    }
}

} // verus!
