//! Tiny helpers shared across modules. Keep this file small.

use vstd::prelude::*;

use crate::text::chars_of;

verus! {

/// The UTF-16 code units of `c`: one unit for a character of the Basic
/// Multilingual Plane, else a high and a low surrogate.
pub open spec fn utf16_units(c: char) -> Seq<u16> {
    let u = c as u32;
    if u < 0x10000 {
        seq![u as u16]
    } else {
        let v = u - 0x10000;
        seq![(0xD800 + v / 1024) as u16, (0xDC00 + v % 1024) as u16]
    }
}

/// The UTF-16 encoding of `s`.
pub open spec fn encode_utf16(s: Seq<char>) -> Seq<u16>
    decreases s.len(),
{
    if s.len() == 0 {
        Seq::empty()
    } else {
        encode_utf16(s.drop_last()) + utf16_units(s.last())
    }
}

/// Encode a `&str` as a NUL-terminated UTF-16 buffer, ready to hand to a
/// Win32 `PCWSTR` argument. The caller is responsible for keeping the
/// returned `Vec<u16>` alive for the duration of the FFI call.
pub fn wide_nul(s: &str) -> (w: Vec<u16>)
    ensures
        w@ == encode_utf16(s@).push(0),
        decode_utf16(w@.drop_last()) == Some(s@),
{
    let chars = chars_of(s);
    let n = chars.len();
    let mut w: Vec<u16> = Vec::new();
    for i in 0..n
        invariant
            n == chars@.len(),
            w@ == encode_utf16(chars@.take(i as int)),
    {
        let ghost before = w@;
        let c = chars[i];
        let u = c as u32;
        if u < 0x10000 {
            w.push(u as u16);
        } else {
            let v = u - 0x10000;
            w.push((0xD800 + v / 1024) as u16);
            w.push((0xDC00 + v % 1024) as u16);
        }
        proof {
            let done = chars@.take(i + 1);
            assert(done.drop_last() =~= chars@.take(i as int));
            assert(w@ =~= before + utf16_units(c));
        }
    }
    assert(chars@.take(n as int) =~= s@);
    w.push(0);
    proof {
        law_wide_string_decodes_back(s@);
    }
    w
}

/// `c` followed by the decoded text `rest`, where that decoded.
pub open spec fn prepend_char(c: char, rest: Option<Seq<char>>) -> Option<Seq<char>> {
    match rest {
        Some(t) => Some(seq![c] + t),
        None => None,
    }
}

/// The text UTF-16 code units `w` decode to, or `None` where they hold an
/// unpaired surrogate: a unit outside the surrogate range stands for itself,
/// and a high surrogate followed by a low one for the supplementary
/// character they encode.
pub open spec fn decode_utf16(w: Seq<u16>) -> Option<Seq<char>>
    decreases w.len(),
{
    if w.len() == 0 {
        Some(Seq::empty())
    } else if w[0] < 0xD800 || w[0] >= 0xE000 {
        prepend_char(w[0] as char, decode_utf16(w.skip(1)))
    } else if w[0] < 0xDC00 && w.len() >= 2 && 0xDC00 <= w[1] < 0xE000 {
        prepend_char(
            (0x10000 + (w[0] - 0xD800) * 1024 + (w[1] - 0xDC00)) as char,
            decode_utf16(w.skip(2)),
        )
    } else {
        None
    }
}

/// The encoding of a text is that of its first character followed by that
/// of the rest.
proof fn lemma_encode_front(s: Seq<char>)
    requires
        s.len() > 0,
    ensures
        encode_utf16(s) == utf16_units(s[0]) + encode_utf16(s.drop_first()),
    decreases s.len(),
{
    if s.len() == 1 {
        assert(s.drop_last() =~= Seq::<char>::empty());
        assert(s.drop_first() =~= Seq::<char>::empty());
        assert(encode_utf16(s.drop_last()) =~= Seq::<u16>::empty());
        assert(encode_utf16(s) =~= utf16_units(s[0]));
        assert(utf16_units(s[0]) + encode_utf16(s.drop_first()) =~= utf16_units(s[0]));
    } else {
        let init = s.drop_last();
        lemma_encode_front(init);
        assert(init.drop_first() =~= s.drop_first().drop_last());
        assert(s.drop_first().last() == s.last());
        assert(encode_utf16(s) =~= utf16_units(s[0]) + encode_utf16(s.drop_first()));
    }
}

/// Decoding the units of one character followed by more units gives the
/// character followed by what those decode to.
proof fn lemma_decode_char(c: char, rest: Seq<u16>)
    ensures
        decode_utf16(utf16_units(c) + rest) == prepend_char(c, decode_utf16(rest)),
{
    let w = utf16_units(c) + rest;
    let u = c as u32;
    if u < 0x10000 {
        assert(w[0] == u as u16);
        assert(w.skip(1) =~= rest);
    } else {
        let v = u - 0x10000;
        assert(v / 1024 < 1024);
        assert(w[0] == (0xD800 + v / 1024) as u16);
        assert(w[1] == (0xDC00 + v % 1024) as u16);
        assert(w.skip(2) =~= rest);
        assert(0x10000 + (v / 1024) * 1024 + v % 1024 == u);
    }
}

/// A wide string decodes back: all its units but the terminating zero are
/// the UTF-16 encoding of the text, and decode to the text itself.
pub proof fn law_wide_string_decodes_back(s: Seq<char>)
    ensures
        encode_utf16(s).push(0).drop_last() == encode_utf16(s),
        encode_utf16(s).push(0).last() == 0,
        decode_utf16(encode_utf16(s)) == Some(s),
    decreases s.len(),
{
    assert(encode_utf16(s).push(0).drop_last() =~= encode_utf16(s));
    if s.len() == 0 {
        assert(encode_utf16(s) =~= Seq::<u16>::empty());
        assert(s =~= Seq::<char>::empty());
    } else {
        lemma_encode_front(s);
        law_wide_string_decodes_back(s.drop_first());
        lemma_decode_char(s[0], encode_utf16(s.drop_first()));
        assert(seq![s[0]] + s.drop_first() =~= s);
    }
}

} // verus!
