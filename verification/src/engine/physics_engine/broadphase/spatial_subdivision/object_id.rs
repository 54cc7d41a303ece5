use vstd::prelude::*;

verus! {

/// The control bits of an object: the high nibble names the parity class of
/// its home cell (0 to 3), the low nibble holds one bit for each parity class
/// of the cells that its bounding circle occupies.
#[derive(PartialEq, Eq, Debug, Clone, Copy, Structural)]
pub struct ObjectId {
    pub control_bits: u8,
}

/// The character that shows bit `k` of `v`.
pub open spec fn bit_char(v: u8, k: u8) -> char {
    if (v >> k) & 1u8 == 1u8 { '1' } else { '0' }
}

/// The eight bits of `v`, most significant first, with an underscore between
/// the high and the low nibble: `0010_0101`.
pub open spec fn control_bits_text(v: u8) -> Seq<char> {
    seq![
        bit_char(v, 7), bit_char(v, 6), bit_char(v, 5), bit_char(v, 4), '_',
        bit_char(v, 3), bit_char(v, 2), bit_char(v, 1), bit_char(v, 0),
    ]
}

impl ObjectId {
    pub fn to_string(&self) -> (r: String)
        ensures
            r@ == control_bits_text(self.control_bits),
    {
        let v = self.control_bits;
        let mut s = String::new();
        let mut k: u8 = 8;
        while k > 0
            invariant
                k <= 8,
                s@.len() == (if k >= 4 { 8 - k } else { 9 - k }),
                forall|i: int|
                    0 <= i < s@.len() ==> #[trigger] s@[i] == control_bits_text(v)[i],
            decreases k,
        {
            proof {
                reveal_strlit("0");
                reveal_strlit("1");
                reveal_strlit("_");
            }
            k = k - 1;
            if k == 3 {
                s.append("_");
            }
            if (v >> k) & 1 == 1 {
                s.append("1");
            } else {
                s.append("0");
            }
        }
        assert(s@ =~= control_bits_text(v));
        s
    }
}

} // verus!
