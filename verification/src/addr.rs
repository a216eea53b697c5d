//! IPv6 addresses and netmask validation.
//!
//! An address is held as its sixteen raw bytes. A netmask is accepted only
//! when it is a contiguous run of high-order set bits; its prefix length is
//! the number of those bits, at most 128.

use vstd::prelude::*;

verus! {

/// An IPv6 address as sixteen bytes in network order.
#[derive(Clone, Copy, Debug)]
pub struct Ipv6Addr {
    pub b: [u8; 16],
}

impl Ipv6Addr {
    /// The address with the given sixteen bytes.
    pub fn from_bytes(b: [u8; 16]) -> (r: Ipv6Addr)
        ensures
            r.b@ == b@,
    {
        Ipv6Addr { b }
    }

    /// The sixteen bytes of the address.
    pub fn bytes(&self) -> (r: [u8; 16])
        ensures
            r@ == self.b@,
    {
        self.b
    }

    /// Whether two addresses hold the same bytes.
    pub fn same_as(&self, other: &Ipv6Addr) -> (r: bool)
        ensures
            r == (self.b@ =~= other.b@),
    {
        let mut i: usize = 0;
        while i < 16
            invariant
                0 <= i <= 16,
                forall|k: int| 0 <= k < i ==> self.b@[k] == other.b@[k],
            decreases 16 - i,
        {
            if self.b[i] != other.b[i] {
                return false;
            }
            i = i + 1;
        }
        true
    }
}

/// The byte whose `k` high-order bits are set and whose remaining bits are
/// clear, for `k` between 0 and 8.
pub open spec fn prefix_byte(k: int) -> u8 {
    if k <= 0 {
        0x00
    } else if k == 1 {
        0x80
    } else if k == 2 {
        0xC0
    } else if k == 3 {
        0xE0
    } else if k == 4 {
        0xF0
    } else if k == 5 {
        0xF8
    } else if k == 6 {
        0xFC
    } else if k == 7 {
        0xFE
    } else {
        0xFF
    }
}

/// Byte `j` of the mask whose `p` high-order bits are set.
pub open spec fn mask_byte_at(p: int, j: int) -> u8 {
    if p >= 8 * (j + 1) {
        0xFF
    } else if p <= 8 * j {
        0x00
    } else {
        prefix_byte(p - 8 * j)
    }
}

/// Whether the first `j` bytes of `s` agree with the mask of `p` high-order
/// set bits.
pub open spec fn bytes_match_upto(s: Seq<u8>, p: int, j: int) -> bool {
    forall|i: int| 0 <= i < j ==> s[i] == mask_byte_at(p, i)
}

/// Whether `s` is exactly the sixteen-byte mask made of `p` high-order set
/// bits followed by clear bits.
pub open spec fn is_prefix_mask(s: Seq<u8>, p: int) -> bool {
    &&& s.len() == 16
    &&& 0 <= p <= 128
    &&& bytes_match_upto(s, p, 16)
}

/// Distinct counts of leading ones give distinct bytes.
proof fn lemma_prefix_byte_injective(k1: int, k2: int)
    requires
        0 <= k1 <= 8,
        0 <= k2 <= 8,
        k1 != k2,
    ensures
        prefix_byte(k1) != prefix_byte(k2),
{
}

/// Every byte of a contiguous mask is one of the nine prefix bytes.
proof fn lemma_mask_byte_is_code(p: int, j: int)
    ensures
        exists|k: int| 0 <= k <= 8 && mask_byte_at(p, j) == prefix_byte(k),
{
    if p >= 8 * (j + 1) {
        assert(mask_byte_at(p, j) == prefix_byte(8));
    } else if p <= 8 * j {
        assert(mask_byte_at(p, j) == prefix_byte(0));
    } else {
        let k = p - 8 * j;
        assert(0 <= k <= 8);
        assert(mask_byte_at(p, j) == prefix_byte(k));
    }
}

/// A match over a longer byte prefix is a match over a shorter one.
proof fn lemma_match_restrict(s: Seq<u8>, q: int, j1: int, j2: int)
    requires
        0 <= j1 <= j2,
        bytes_match_upto(s, q, j2),
    ensures
        bytes_match_upto(s, q, j1),
{
    assert forall|i: int| 0 <= i < j1 implies s[i] == mask_byte_at(q, i) by {
        assert(0 <= i < j2);
    }
}

/// The count of leading ones in `b` when `b` is one of the nine bytes a
/// contiguous mask may hold, or `None` when it is not.
fn leading_ones_code(b: u8) -> (r: Option<u8>)
    ensures
        match r {
            Some(k) => 0 <= k <= 8 && b == prefix_byte(k as int),
            None => forall|k: int| 0 <= k <= 8 ==> b != prefix_byte(k),
        },
{
    match b {
        0x00 => Some(0),
        0x80 => Some(1),
        0xC0 => Some(2),
        0xE0 => Some(3),
        0xF0 => Some(4),
        0xF8 => Some(5),
        0xFC => Some(6),
        0xFE => Some(7),
        0xFF => Some(8),
        _ => None,
    }
}

/// The prefix length of a contiguous netmask, or `None` when the mask's set
/// bits are not a single run of high-order bits.
pub fn netmask_prefix(mask: &Ipv6Addr) -> (r: Option<u8>)
    ensures
        match r {
            Some(p) => is_prefix_mask(mask.b@, p as int),
            None => forall|q: int| !(#[trigger] is_prefix_mask(mask.b@, q)),
        },
{
    let s = Ghost(mask.b@);
    let mut j: usize = 0;
    let mut p: u8 = 0;
    let mut done: bool = false;
    while j < 16
        invariant
            s@ == mask.b@,
            s@.len() == 16,
            0 <= j <= 16,
            !done ==> p == 8 * j && (forall|i: int| 0 <= i < j ==> s@[i] == 0xFF),
            done ==> p <= 8 * j && bytes_match_upto(s@, p as int, j as int),
            done ==> forall|q: int|
                0 <= q <= 128 && #[trigger] bytes_match_upto(s@, q, j as int) ==> q == p,
        decreases 16 - j,
    {
        let b = mask.b[j];
        if !done {
            if b == 0xFF {
                p = p + 8;
            } else {
                match leading_ones_code(b) {
                    Some(k) => {
                        let ghost p_new = 8 * j + k as int;
                        proof {
                            // The bytes so far, all 0xFF, match the new count.
                            assert forall|i: int| 0 <= i < j + 1 implies s@[i]
                                == mask_byte_at(p_new, i) by {
                                if i < j {
                                    assert(p_new >= 8 * (i + 1));
                                } else {
                                    if k == 0 {
                                        assert(mask_byte_at(p_new, i) == 0x00);
                                    } else {
                                        assert(mask_byte_at(p_new, i) == prefix_byte(k as int));
                                    }
                                }
                            }
                            // No other count matches the bytes seen so far.
                            assert forall|q: int|
                                0 <= q <= 128 && #[trigger] bytes_match_upto(s@, q, j + 1)
                                    implies q == p_new by {
                                assert(s@[j as int] == mask_byte_at(q, j as int));
                                if q >= 8 * (j + 1) {
                                    assert(mask_byte_at(q, j as int) == 0xFF);
                                } else if q < 8 * j {
                                    let i0 = q / 8;
                                    assert(8 * i0 <= q < 8 * (i0 + 1));
                                    assert(0 <= i0 < j);
                                    assert(s@[i0] == 0xFF);
                                    assert(s@[i0] == mask_byte_at(q, i0));
                                    assert(mask_byte_at(q, i0) == prefix_byte(q - 8 * i0));
                                    lemma_prefix_byte_injective(q - 8 * i0, 8);
                                } else {
                                    assert(mask_byte_at(q, j as int) == prefix_byte(q - 8 * j));
                                    assert(b == prefix_byte(k as int));
                                    if q - 8 * j != k {
                                        lemma_prefix_byte_injective(q - 8 * j, k as int);
                                    }
                                }
                            }
                        }
                        proof {
                            assert(bytes_match_upto(s@, p_new, j + 1));
                        }
                        p = p + k;
                        done = true;
                    },
                    None => {
                        proof {
                            assert forall|q: int| !(#[trigger] is_prefix_mask(s@, q)) by {
                                if is_prefix_mask(s@, q) {
                                    assert(s@[j as int] == mask_byte_at(q, j as int));
                                    lemma_mask_byte_is_code(q, j as int);
                                }
                            }
                        }
                        return None;
                    },
                }
            }
        } else {
            if b != 0x00 {
                proof {
                    assert forall|q: int| !(#[trigger] is_prefix_mask(s@, q)) by {
                        if is_prefix_mask(s@, q) {
                            assert(bytes_match_upto(s@, q, j as int));
                            assert(q == p);
                            assert(s@[j as int] == mask_byte_at(p as int, j as int));
                            assert(mask_byte_at(p as int, j as int) == 0x00);
                        }
                    }
                }
                return None;
            }
            proof {
                // A zero byte extends the match and keeps the count unique.
                assert(mask_byte_at(p as int, j as int) == 0x00);
                assert(bytes_match_upto(s@, p as int, j + 1));
                assert forall|q: int|
                    0 <= q <= 128 && #[trigger] bytes_match_upto(s@, q, j + 1)
                        implies q == p by {
                    lemma_match_restrict(s@, q, j as int, j + 1);
                }
            }
        }
        j = j + 1;
    }
    if !done {
        proof {
            assert forall|i: int| 0 <= i < 16 implies s@[i] == mask_byte_at(128, i) by {
                assert(128 >= 8 * (i + 1));
            }
        }
        Some(128)
    } else {
        Some(p)
    }
}

} // verus!
