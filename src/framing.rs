use vstd::prelude::*;

verus! {

/// Little-endian 32-bit word of `s` at `i`.
pub open spec fn le32(s: Seq<u8>, i: int) -> int {
    s[i] as int + 256 * (s[i + 1] as int) + 65536 * (s[i + 2] as int) + 16777216 * (s[i + 3] as int)
}

/// The chunk starting at `s[0]` has the four-letter identifier `a b c d`.
pub open spec fn has_id(s: Seq<u8>, a: u8, b: u8, c: u8, d: u8) -> bool {
    s[0] == a && s[1] == b && s[2] == c && s[3] == d
}

/// `k` length-prefixed strings, read one after the other from `s`, each
/// find their length word in `s`; reading stops early at a string whose
/// bytes run past the end.
pub open spec fn strings_fit(s: Seq<u8>, k: nat) -> bool
    decreases k,
{
    if k == 0 {
        true
    } else if s.len() < 4 {
        false
    } else if 4 + le32(s, 0) > s.len() {
        true
    } else {
        strings_fit(s.subrange(4 + le32(s, 0), s.len() as int), (k - 1) as nat)
    }
}

/// Framing of a voxel file's chunks. A chunk is a four-letter identifier,
/// the lengths of its content and of its children, then the content and
/// the children. With `seq` set, `s` is read as chunks one after the other
/// until one does not fit in what is left; else as one chunk.
///
/// Every word that is read lies inside `s`, a voxel list or a property list
/// holds no more entries than its bytes can back, and a palette is whole
/// words. Identifiers of unknown chunks are not looked into.
pub open spec fn frames_fit(s: Seq<u8>, seq: bool) -> bool
    decreases s.len(), if seq {
        1int
    } else {
        0int
    },
{
    if seq {
        if !frames_fit(s, false) {
            false
        } else if s.len() >= 12 && 12 + le32(s, 4) + le32(s, 8) <= s.len() {
            frames_fit(s.subrange(12 + le32(s, 4) + le32(s, 8), s.len() as int), true)
        } else {
            true
        }
    } else if s.len() < 4 {
        true
    } else if s.len() < 12 {
        false
    } else {
        let cs = le32(s, 4);
        let ch = le32(s, 8);
        if 12 + cs + ch > s.len() {
            true
        } else {
            let content = s.subrange(12, 12 + cs);
            let children = s.subrange(12 + cs, 12 + cs + ch);
            let pack = has_id(s, 80, 65, 67, 75);
            if ch != 0 {
                frames_fit(children, true) && (pack ==> frames_fit(content, true))
            } else if has_id(s, 83, 73, 90, 69) {
                content.len() >= 12
            } else if has_id(s, 88, 89, 90, 73) {
                content.len() >= 4 && 4 + 4 * le32(content, 0) <= content.len()
            } else if pack {
                frames_fit(content, true)
            } else if has_id(s, 82, 71, 66, 65) {
                content.len() % 4 == 0
            } else if has_id(s, 77, 65, 84, 76) {
                &&& content.len() >= 8
                &&& 8 * le32(content, 4) <= content.len()
                &&& strings_fit(content.subrange(8, content.len() as int), (2 * le32(content, 4)) as nat)
            } else {
                true
            }
        }
    }
}

/// A voxel file whose framing fits: either it does not start with the
/// file signature `VOX `, or a version word and a well-framed chunk follow.
pub open spec fn vox_fits(s: Seq<u8>) -> bool {
    ||| s.len() < 4
    ||| !has_id(s, 86, 79, 88, 32)
    ||| (s.len() >= 8 && frames_fit(s.subrange(8, s.len() as int), false))
}

fn read_le32(b: &[u8], i: usize) -> (r: u64)
    requires
        i + 4 <= b@.len(),
    ensures
        r == le32(b@, i as int),
{
    (b[i] as u64) + 256 * (b[i + 1] as u64) + 65536 * (b[i + 2] as u64) + 16777216 * (b[i + 3] as u64)
}

proof fn lemma_le32_sub(b: Seq<u8>, lo: int, hi: int, i: int)
    requires
        0 <= lo <= hi <= b.len(),
        0 <= i,
        lo + i + 4 <= hi,
    ensures
        le32(b.subrange(lo, hi), i) == le32(b, lo + i),
        le32(b, lo + i) <= 0xffff_ffff,
{
}

fn id_at(b: &[u8], lo: usize, c0: u8, c1: u8, c2: u8, c3: u8) -> (r: bool)
    requires
        lo + 4 <= b@.len(),
    ensures
        r == (b@[lo as int] == c0 && b@[lo + 1] == c1 && b@[lo + 2] == c2 && b@[lo + 3] == c3),
{
    b[lo] == c0 && b[lo + 1] == c1 && b[lo + 2] == c2 && b[lo + 3] == c3
}

fn strings_fit_at(b: &[u8], lo: usize, hi: usize, k: u64) -> (r: bool)
    requires
        lo <= hi <= b@.len(),
    ensures
        r == strings_fit(b@.subrange(lo as int, hi as int), k as nat),
{
    let mut pos = lo;
    let mut left = k;
    while left > 0
        invariant
            lo <= pos <= hi <= b@.len(),
            strings_fit(b@.subrange(lo as int, hi as int), k as nat) == strings_fit(
                b@.subrange(pos as int, hi as int),
                left as nat,
            ),
        decreases left,
    {
        let ghost s = b@.subrange(pos as int, hi as int);
        if hi - pos < 4 {
            return false;
        }
        proof {
            lemma_le32_sub(b@, pos as int, hi as int, 0);
        }
        let n = read_le32(b, pos);
        if 4 + n > (hi - pos) as u64 {
            return true;
        }
        let next = pos + 4 + n as usize;
        proof {
            assert(s.subrange(4 + le32(s, 0), s.len() as int) =~= b@.subrange(next as int, hi as int));
        }
        pos = next;
        left = left - 1;
    }
    true
}

/// Whether `b[lo..hi]` is framed as `frames_fit` asks.
fn frames_fit_at(b: &[u8], lo: usize, hi: usize, seq: bool) -> (r: bool)
    requires
        lo <= hi <= b@.len(),
    ensures
        r == frames_fit(b@.subrange(lo as int, hi as int), seq),
    decreases hi - lo, if seq {
        1int
    } else {
        0int
    },
{
    if seq {
        let mut pos = lo;
        while pos < hi
            invariant
                seq,
                lo <= pos <= hi <= b@.len(),
                frames_fit(b@.subrange(lo as int, hi as int), true) == frames_fit(
                    b@.subrange(pos as int, hi as int),
                    true,
                ),
            decreases hi - pos,
        {
            let ghost s = b@.subrange(pos as int, hi as int);
            if !frames_fit_at(b, pos, hi, false) {
                return false;
            }
            if hi - pos < 12 {
                return true;
            }
            proof {
                lemma_le32_sub(b@, pos as int, hi as int, 4);
                lemma_le32_sub(b@, pos as int, hi as int, 8);
            }
            let cs = read_le32(b, pos + 4);
            let ch = read_le32(b, pos + 8);
            if 12 + cs + ch > (hi - pos) as u64 {
                return true;
            }
            let next = pos + 12 + cs as usize + ch as usize;
            proof {
                assert(s.subrange(12 + le32(s, 4) + le32(s, 8), s.len() as int) =~= b@.subrange(
                    next as int,
                    hi as int,
                ));
            }
            pos = next;
        }
        proof {
            assert(b@.subrange(pos as int, hi as int).len() == 0);
            assert(frames_fit(b@.subrange(pos as int, hi as int), false));
        }
        return true;
    }
    let ghost s = b@.subrange(lo as int, hi as int);
    if hi - lo < 4 {
        return true;
    }
    if hi - lo < 12 {
        return false;
    }
    proof {
        lemma_le32_sub(b@, lo as int, hi as int, 4);
        lemma_le32_sub(b@, lo as int, hi as int, 8);
    }
    let cs = read_le32(b, lo + 4);
    let ch = read_le32(b, lo + 8);
    if 12 + cs + ch > (hi - lo) as u64 {
        return true;
    }
    let c_lo = lo + 12;
    let c_hi = c_lo + cs as usize;
    let k_hi = c_hi + ch as usize;
    proof {
        assert(s.subrange(12, 12 + le32(s, 4)) =~= b@.subrange(c_lo as int, c_hi as int));
        assert(s.subrange(12 + le32(s, 4), 12 + le32(s, 4) + le32(s, 8)) =~= b@.subrange(
            c_hi as int,
            k_hi as int,
        ));
    }
    let pack = id_at(b, lo, 80, 65, 67, 75);
    if ch != 0 {
        if !frames_fit_at(b, c_hi, k_hi, true) {
            return false;
        }
        return !pack || frames_fit_at(b, c_lo, c_hi, true);
    }
    let len = c_hi - c_lo;
    if id_at(b, lo, 83, 73, 90, 69) {
        len >= 12
    } else if id_at(b, lo, 88, 89, 90, 73) {
        if len < 4 {
            return false;
        }
        proof {
            lemma_le32_sub(b@, c_lo as int, c_hi as int, 0);
        }
        let n = read_le32(b, c_lo);
        4 + 4 * n <= len as u64
    } else if pack {
        frames_fit_at(b, c_lo, c_hi, true)
    } else if id_at(b, lo, 82, 71, 66, 65) {
        len % 4 == 0
    } else if id_at(b, lo, 77, 65, 84, 76) {
        if len < 8 {
            return false;
        }
        proof {
            lemma_le32_sub(b@, c_lo as int, c_hi as int, 4);
        }
        let n = read_le32(b, c_lo + 4);
        if 8 * n > len as u64 {
            return false;
        }
        proof {
            let content = b@.subrange(c_lo as int, c_hi as int);
            assert(content.subrange(8, content.len() as int) =~= b@.subrange(c_lo + 8, c_hi as int));
        }
        strings_fit_at(b, c_lo + 8, c_hi, 2 * n)
    } else {
        true
    }
}

/// Whether the framing of a voxel file fits, as `vox_fits` states.
pub fn vox_file_fits(b: &[u8]) -> (r: bool)
    ensures
        r == vox_fits(b@),
{
    if b.len() < 4 {
        return true;
    }
    if !(b[0] == 86 && b[1] == 79 && b[2] == 88 && b[3] == 32) {
        return true;
    }
    if b.len() < 8 {
        return false;
    }
    frames_fit_at(b, 8, b.len(), false)
}

} // verus!
