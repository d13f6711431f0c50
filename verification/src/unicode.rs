//! Permissive unicode indexing: code-point length, byte offsets of
//! code-point indices, substring extraction and construction from code
//! points, tolerant of malformed byte sequences. A malformed byte never
//! makes anything fail; it simply counts as one unit.

use vstd::prelude::*;

verus! {

broadcast use vstd::std_specs::vec::group_vec_axioms;

/// How many bytes the unit led by `b` claims: the usual UTF-8 lead-byte
/// ranges, with every other byte — continuation bytes out of place and
/// invalid lead bytes — counting as a single unit.
pub open spec fn unit_len_spec(b: u8) -> int {
    if b < 0xC0 {
        1
    } else if b < 0xE0 {
        2
    } else if b < 0xF0 {
        3
    } else if b < 0xF8 {
        4
    } else {
        1
    }
}

/// Bytes consumed by the first unit of `s`: what its lead byte claims,
/// clamped to what is actually there.
pub open spec fn first_step(s: Seq<u8>) -> int {
    if unit_len_spec(s[0]) <= s.len() {
        unit_len_spec(s[0])
    } else {
        s.len() as int
    }
}

/// Number of code-point units in `s`, permissively.
pub open spec fn ulen(s: Seq<u8>) -> nat
    decreases s.len(),
{
    if s.len() == 0 {
        0
    } else {
        1 + ulen(s.skip(first_step(s)))
    }
}

/// Byte offset of unit index `i` (0-based), clamped to the end of `s` for
/// indices at or past the last unit.
pub open spec fn uoffset(s: Seq<u8>, i: int) -> int
    decreases s.len(),
{
    if i <= 0 || s.len() == 0 {
        0
    } else {
        first_step(s) + uoffset(s.skip(first_step(s)), i - 1)
    }
}

pub proof fn lemma_uoffset_bounds(s: Seq<u8>, i: int)
    ensures
        0 <= uoffset(s, i) <= s.len(),
    decreases s.len(),
{
    if !(i <= 0 || s.len() == 0) {
        lemma_uoffset_bounds(s.skip(first_step(s)), i - 1);
    }
}

pub proof fn lemma_uoffset_mono(s: Seq<u8>, i: int, j: int)
    requires
        i <= j,
    ensures
        uoffset(s, i) <= uoffset(s, j),
    decreases s.len(),
{
    if i <= 0 || s.len() == 0 {
        lemma_uoffset_bounds(s, j);
        if !(j <= 0 || s.len() == 0) {
            lemma_uoffset_bounds(s.skip(first_step(s)), j - 1);
        }
    } else {
        lemma_uoffset_mono(s.skip(first_step(s)), i - 1, j - 1);
    }
}

/// The unit count never exceeds the byte count.
pub proof fn lemma_ulen_le_len(s: Seq<u8>)
    ensures
        ulen(s) <= s.len(),
    decreases s.len(),
{
    if s.len() > 0 {
        lemma_ulen_le_len(s.skip(first_step(s)));
    }
}

/// Bytes the lead byte `b` claims.
pub fn unit_len(b: u8) -> (r: usize)
    ensures
        r == unit_len_spec(b),
{
    if b < 0xC0 {
        1
    } else if b < 0xE0 {
        2
    } else if b < 0xF0 {
        3
    } else if b < 0xF8 {
        4
    } else {
        1
    }
}

/// Permissive code-point length of a byte string.
#[verifier::loop_isolation(false)]
pub fn unicode_len(s: &Vec<u8>) -> (r: usize)
    ensures
        r == ulen(s@),
{
    let mut pos: usize = 0;
    let mut count: usize = 0;
    proof {
        assert(s@.skip(0) =~= s@);
    }
    while pos < s.len()
        invariant
            0 <= pos <= s@.len(),
            count <= pos,
            ulen(s@) == count + ulen(s@.skip(pos as int)),
        decreases s@.len() - pos,
    {
        let step = unit_len(s[pos]);
        let advance = if step <= s.len() - pos {
            step
        } else {
            s.len() - pos
        };
        proof {
            assert(s@.skip(pos as int)[0] == s@[pos as int]);
            assert(first_step(s@.skip(pos as int)) == advance as int);
            assert(s@.skip(pos as int).skip(advance as int) =~= s@.skip(pos as int + advance));
        }
        pos = pos + advance;
        count = count + 1;
    }
    count
}

/// Byte offset of 0-based unit index `idx`, clamped to the end.
#[verifier::loop_isolation(false)]
pub fn unicode_offset(s: &Vec<u8>, idx: usize) -> (r: usize)
    ensures
        r == uoffset(s@, idx as int),
{
    let mut pos: usize = 0;
    let mut remaining: usize = idx;
    proof {
        assert(s@.skip(0) =~= s@);
    }
    while remaining > 0 && pos < s.len()
        invariant
            0 <= pos <= s@.len(),
            uoffset(s@, idx as int) == pos + uoffset(s@.skip(pos as int), remaining as int),
        decreases remaining,
    {
        let step = unit_len(s[pos]);
        let advance = if step <= s.len() - pos {
            step
        } else {
            s.len() - pos
        };
        proof {
            assert(s@.skip(pos as int)[0] == s@[pos as int]);
            assert(first_step(s@.skip(pos as int)) == advance as int);
            assert(s@.skip(pos as int).skip(advance as int) =~= s@.skip(pos as int + advance));
        }
        pos = pos + advance;
        remaining = remaining - 1;
    }
    proof {
        if remaining == 0 {
            assert(uoffset(s@.skip(pos as int), 0) == 0);
        } else {
            assert(s@.skip(pos as int).len() == 0);
        }
    }
    pos
}

/// Copy of the byte range `lo..hi`.
#[verifier::loop_isolation(false)]
pub fn byte_range(s: &Vec<u8>, lo: usize, hi: usize) -> (r: Vec<u8>)
    requires
        lo <= hi <= s@.len(),
    ensures
        r@ == s@.subrange(lo as int, hi as int),
{
    let mut out: Vec<u8> = Vec::new();
    let mut j: usize = lo;
    while j < hi
        invariant
            lo <= j <= hi,
            out@ =~= s@.subrange(lo as int, j as int),
        decreases hi - j,
    {
        out.push(s[j]);
        j = j + 1;
    }
    proof {
        assert(out@ =~= s@.subrange(lo as int, hi as int));
    }
    out
}

/// UTF-8 encoding of one code point, permissively: the four standard forms
/// by range, and a replacement character for values past what four bytes
/// can carry.
pub open spec fn encode_codepoint_spec(cp: u32) -> Seq<u8> {
    if cp < 0x80 {
        seq![cp as u8]
    } else if cp < 0x800 {
        seq![(0xC0 | (cp >> 6)) as u8, (0x80 | (cp & 0x3F)) as u8]
    } else if cp < 0x10000 {
        seq![
            (0xE0 | (cp >> 12)) as u8,
            (0x80 | ((cp >> 6) & 0x3F)) as u8,
            (0x80 | (cp & 0x3F)) as u8,
        ]
    } else if cp < 0x200000 {
        seq![
            (0xF0 | (cp >> 18)) as u8,
            (0x80 | ((cp >> 12) & 0x3F)) as u8,
            (0x80 | ((cp >> 6) & 0x3F)) as u8,
            (0x80 | (cp & 0x3F)) as u8,
        ]
    } else {
        seq![0xEFu8, 0xBFu8, 0xBDu8]
    }
}

/// Concatenated encoding of a sequence of code points.
pub open spec fn encode_all_spec(cps: Seq<u32>) -> Seq<u8>
    decreases cps,
{
    if cps.len() == 0 {
        Seq::empty()
    } else {
        encode_codepoint_spec(cps[0]) + encode_all_spec(cps.drop_first())
    }
}

pub proof fn lemma_encode_all_snoc(cps: Seq<u32>, cp: u32)
    ensures
        encode_all_spec(cps.push(cp)) == encode_all_spec(cps) + encode_codepoint_spec(cp),
    decreases cps,
{
    if cps.len() == 0 {
        assert(cps.push(cp).drop_first() =~= Seq::<u32>::empty());
        assert(encode_all_spec(Seq::<u32>::empty()) =~= Seq::<u8>::empty());
        assert(encode_all_spec(cps.push(cp)) =~= encode_codepoint_spec(cp) + Seq::<u8>::empty());
        assert(encode_all_spec(cps) + encode_codepoint_spec(cp) =~= encode_codepoint_spec(cp));
    } else {
        assert(cps.push(cp).drop_first() =~= cps.drop_first().push(cp));
        lemma_encode_all_snoc(cps.drop_first(), cp);
        assert(encode_all_spec(cps) + encode_codepoint_spec(cp) =~= encode_codepoint_spec(cps[0])
            + (encode_all_spec(cps.drop_first()) + encode_codepoint_spec(cp)));
    }
}

/// The encoding of one code point reads back as exactly one permissive
/// unit, whatever follows it.
pub proof fn lemma_encoded_unit(cp: u32, rest: Seq<u8>)
    ensures
        ulen(encode_codepoint_spec(cp) + rest) == 1 + ulen(rest),
{
    let piece = encode_codepoint_spec(cp);
    let s = piece + rest;
    if cp < 0x80 {
        assert((cp as u8) < 0xC0) by (bit_vector)
            requires
                cp < 0x80,
        ;
        assert(s[0] == cp as u8);
        assert(first_step(s) == 1);
        assert(s.skip(1) =~= rest);
    } else if cp < 0x800 {
        assert({
            let lead = (0xC0 | (cp >> 6)) as u8;
            0xC0 <= lead < 0xE0
        }) by (bit_vector)
            requires
                0x80 <= cp < 0x800,
        ;
        assert(s[0] == (0xC0 | (cp >> 6)) as u8);
        assert(first_step(s) == 2);
        assert(s.skip(2) =~= rest);
    } else if cp < 0x10000 {
        assert({
            let lead = (0xE0 | (cp >> 12)) as u8;
            0xE0 <= lead < 0xF0
        }) by (bit_vector)
            requires
                0x800 <= cp < 0x10000,
        ;
        assert(s[0] == (0xE0 | (cp >> 12)) as u8);
        assert(first_step(s) == 3);
        assert(s.skip(3) =~= rest);
    } else if cp < 0x200000 {
        assert({
            let lead = (0xF0 | (cp >> 18)) as u8;
            0xF0 <= lead < 0xF8
        }) by (bit_vector)
            requires
                0x10000 <= cp < 0x200000,
        ;
        assert(s[0] == (0xF0 | (cp >> 18)) as u8);
        assert(first_step(s) == 4);
        assert(s.skip(4) =~= rest);
    } else {
        assert(s[0] == 0xEFu8);
        assert(first_step(s) == 3);
        assert(s.skip(3) =~= rest);
    }
}

/// Constructing a string from code points and measuring it agree: the
/// permissive length of the encoding of N code points is N.
pub proof fn lemma_encoding_length(cps: Seq<u32>)
    ensures
        ulen(encode_all_spec(cps)) == cps.len(),
    decreases cps,
{
    if cps.len() > 0 {
        lemma_encoding_length(cps.drop_first());
        lemma_encoded_unit(cps[0], encode_all_spec(cps.drop_first()));
    }
}

/// Encodes one code point.
pub fn encode_codepoint(cp: u32) -> (r: Vec<u8>)
    ensures
        r@ == encode_codepoint_spec(cp),
{
    if cp < 0x80 {
        let mut out: Vec<u8> = Vec::new();
        out.push(#[verifier::truncate] (cp as u8));
        proof {
            assert(out@ =~= encode_codepoint_spec(cp));
        }
        out
    } else if cp < 0x800 {
        let mut out: Vec<u8> = Vec::new();
        out.push(#[verifier::truncate] ((0xC0 | (cp >> 6)) as u8));
        out.push(#[verifier::truncate] ((0x80 | (cp & 0x3F)) as u8));
        proof {
            assert(out@ =~= encode_codepoint_spec(cp));
        }
        out
    } else if cp < 0x10000 {
        let mut out: Vec<u8> = Vec::new();
        out.push(#[verifier::truncate] ((0xE0 | (cp >> 12)) as u8));
        out.push(#[verifier::truncate] ((0x80 | ((cp >> 6) & 0x3F)) as u8));
        out.push(#[verifier::truncate] ((0x80 | (cp & 0x3F)) as u8));
        proof {
            assert(out@ =~= encode_codepoint_spec(cp));
        }
        out
    } else if cp < 0x200000 {
        let mut out: Vec<u8> = Vec::new();
        out.push(#[verifier::truncate] ((0xF0 | (cp >> 18)) as u8));
        out.push(#[verifier::truncate] ((0x80 | ((cp >> 12) & 0x3F)) as u8));
        out.push(#[verifier::truncate] ((0x80 | ((cp >> 6) & 0x3F)) as u8));
        out.push(#[verifier::truncate] ((0x80 | (cp & 0x3F)) as u8));
        proof {
            assert(out@ =~= encode_codepoint_spec(cp));
        }
        out
    } else {
        let mut out: Vec<u8> = Vec::new();
        out.push(0xEF);
        out.push(0xBF);
        out.push(0xBD);
        proof {
            assert(out@ =~= encode_codepoint_spec(cp));
        }
        out
    }
}

/// Builds the byte string that encodes the given code points, in order.
#[verifier::loop_isolation(false)]
pub fn encode_codepoints(cps: &Vec<u32>) -> (r: Vec<u8>)
    ensures
        r@ == encode_all_spec(cps@),
{
    let mut out: Vec<u8> = Vec::new();
    let mut i: usize = 0;
    proof {
        assert(cps@.take(0) =~= Seq::<u32>::empty());
    }
    while i < cps.len()
        invariant
            i <= cps@.len(),
            out@ == encode_all_spec(cps@.take(i as int)),
        decreases cps@.len() - i,
    {
        let mut piece = encode_codepoint(cps[i]);
        proof {
            assert(cps@.take(i + 1) =~= cps@.take(i as int).push(cps@[i as int]));
            lemma_encode_all_snoc(cps@.take(i as int), cps@[i as int]);
        }
        let mut j: usize = 0;
        let piece_len = piece.len();
        while j < piece_len
            invariant
                j <= piece@.len(),
                piece@ == encode_codepoint_spec(cps@[i as int]),
                out@ == encode_all_spec(cps@.take(i as int)) + piece@.take(j as int),
            decreases piece@.len() - j,
        {
            out.push(piece[j]);
            proof {
                assert(piece@.take(j + 1) =~= piece@.take(j as int).push(piece@[j as int]));
                assert(out@ =~= encode_all_spec(cps@.take(i as int)) + piece@.take(j + 1));
            }
            j = j + 1;
        }
        proof {
            assert(piece@.take(piece@.len() as int) =~= piece@);
        }
        i = i + 1;
    }
    proof {
        assert(cps@.take(cps@.len() as int) =~= cps@);
    }
    out
}

/// The permissive substring algorithm, over 1-based code-point indices:
/// an empty string short-circuits; a start of 0 is normalized to 1; a stop
/// of exactly 0 yields the empty string, while an omitted stop defaults to
/// the length; negative indices count from the end; a stop past the end is
/// clamped; start past stop is empty; otherwise the result is the byte
/// range between the permissive offsets of unit `start - 1` and unit
/// `stop`. A start that still lies before the beginning after the
/// adjustment counts as the beginning.
pub open spec fn substring_spec(s: Seq<u8>, start: int, stop_opt: Option<int>) -> Seq<u8> {
    let n = ulen(s) as int;
    let stop0 = match stop_opt {
        Option::Some(v) => v,
        Option::None => n,
    };
    if n == 0 {
        Seq::empty()
    } else if stop0 == 0 {
        Seq::empty()
    } else {
        let start1 = if start == 0 {
            1
        } else {
            start
        };
        let start2 = if start1 < 0 {
            n + start1 + 1
        } else {
            start1
        };
        let stop1 = if stop0 < 0 {
            n + stop0 + 1
        } else {
            stop0
        };
        let stop2 = if stop1 > n {
            n
        } else {
            stop1
        };
        let start3 = if start2 < 1 {
            1
        } else {
            start2
        };
        if start3 > stop2 {
            Seq::empty()
        } else {
            s.subrange(uoffset(s, start3 - 1), uoffset(s, stop2))
        }
    }
}

/// A substring never holds more bytes than the string it came from.
pub proof fn lemma_substring_len(s: Seq<u8>, start: int, stop_opt: Option<int>)
    ensures
        substring_spec(s, start, stop_opt).len() <= s.len(),
{
    let n = ulen(s) as int;
    let stop0 = match stop_opt {
        Option::Some(v) => v,
        Option::None => n,
    };
    if n != 0 && stop0 != 0 {
        let start1 = if start == 0 {
            1
        } else {
            start
        };
        let start2 = if start1 < 0 {
            n + start1 + 1
        } else {
            start1
        };
        let stop1 = if stop0 < 0 {
            n + stop0 + 1
        } else {
            stop0
        };
        let stop2 = if stop1 > n {
            n
        } else {
            stop1
        };
        let start3 = if start2 < 1 {
            1
        } else {
            start2
        };
        if start3 <= stop2 {
            lemma_uoffset_mono(s, start3 - 1, stop2);
            lemma_uoffset_bounds(s, start3 - 1);
            lemma_uoffset_bounds(s, stop2);
        }
    }
}

/// The permissive substring of `s` from `start` to `stop`, 1-based, with
/// `stop` omitted meaning "to the end".
pub fn substring(s: &Vec<u8>, start: i64, stop: Option<i64>) -> (r: Vec<u8>)
    requires
        s@.len() + 2 <= i64::MAX,
    ensures
        r@ == substring_spec(
            s@,
            start as int,
            match stop {
                Option::Some(v) => Option::Some(v as int),
                Option::None => Option::None,
            },
        ),
{
    proof {
        lemma_ulen_le_len(s@);
    }
    let n = unicode_len(s) as i64;
    let stop0 = match stop {
        Option::Some(v) => v,
        Option::None => n,
    };
    if n == 0 {
        return Vec::new();
    }
    if stop0 == 0 {
        return Vec::new();
    }
    let start1 = if start == 0 {
        1
    } else {
        start
    };
    let start2 = if start1 < 0 {
        n + start1 + 1
    } else {
        start1
    };
    let stop1 = if stop0 < 0 {
        n + stop0 + 1
    } else {
        stop0
    };
    let stop2 = if stop1 > n {
        n
    } else {
        stop1
    };
    let start3 = if start2 < 1 {
        1
    } else {
        start2
    };
    if start3 > stop2 {
        return Vec::new();
    }
    let lo = unicode_offset(s, (start3 - 1) as usize);
    let hi = unicode_offset(s, stop2 as usize);
    proof {
        lemma_uoffset_mono(s@, start3 - 1, stop2 as int);
        lemma_uoffset_bounds(s@, stop2 as int);
    }
    byte_range(s, lo, hi)
}

} // verus!
