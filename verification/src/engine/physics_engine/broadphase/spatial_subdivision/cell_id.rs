use vstd::prelude::*;

verus! {

/// A cell of the uniform grid that an object occupies, either as its home cell
/// (the cell holding its centre) or as a phantom cell (one its bounding circle
/// reaches into).
#[derive(PartialEq, Eq, Debug, Clone, Copy)]
pub struct CellId {
    pub cell_id: (u32, u32, u32),
    pub cell_object_type: CellIdType,
    pub object_id: usize,
}

/// The character of the decimal digit `d`.
pub open spec fn digit_char(d: nat) -> char {
    if d == 0 {
        '0'
    } else if d == 1 {
        '1'
    } else if d == 2 {
        '2'
    } else if d == 3 {
        '3'
    } else if d == 4 {
        '4'
    } else if d == 5 {
        '5'
    } else if d == 6 {
        '6'
    } else if d == 7 {
        '7'
    } else if d == 8 {
        '8'
    } else {
        '9'
    }
}

/// The decimal digits of `n`, most significant first, without leading zeros.
pub open spec fn decimal(n: nat) -> Seq<char>
    decreases n,
{
    if n < 10 {
        seq![digit_char(n)]
    } else {
        decimal(n / 10).push(digit_char(n % 10))
    }
}

fn digit_str(d: u64) -> (r: &'static str)
    requires
        d < 10,
    ensures
        r@ == seq![digit_char(d as nat)],
{
    proof {
        reveal_strlit("0");
        reveal_strlit("1");
        reveal_strlit("2");
        reveal_strlit("3");
        reveal_strlit("4");
        reveal_strlit("5");
        reveal_strlit("6");
        reveal_strlit("7");
        reveal_strlit("8");
        reveal_strlit("9");
    }
    if d == 0 {
        "0"
    } else if d == 1 {
        "1"
    } else if d == 2 {
        "2"
    } else if d == 3 {
        "3"
    } else if d == 4 {
        "4"
    } else if d == 5 {
        "5"
    } else if d == 6 {
        "6"
    } else if d == 7 {
        "7"
    } else if d == 8 {
        "8"
    } else {
        "9"
    }
}

/// Appends the decimal digits of `n` to `s`.
fn push_decimal(s: &mut String, n: u64)
    ensures
        final(s)@ == old(s)@ + decimal(n as nat),
    decreases n,
{
    if n >= 10 {
        push_decimal(s, n / 10);
    }
    let ghost mid = s@;
    s.append(digit_str(n % 10));
    proof {
        if n >= 10 {
            assert(decimal(n as nat) == decimal((n / 10) as nat).push(digit_char((n % 10) as nat)));
        }
        assert(s@ =~= old(s)@ + decimal(n as nat));
    }
}

impl CellId {
    /// The text by which the cell is shown, such as
    /// `Object ID: 7, Cell ID: (1, 2, 0), Type: CellIdType::Home`.
    pub open spec fn text(self) -> Seq<char> {
        "Object ID: "@ + decimal(self.object_id as nat) + ", Cell ID: ("@ + decimal(
            self.cell_id.0 as nat,
        ) + ", "@ + decimal(self.cell_id.1 as nat) + ", "@ + decimal(self.cell_id.2 as nat)
            + "), Type: "@ + self.cell_object_type.text()
    }

    pub fn to_string(&self) -> (r: String)
        ensures
            r@ == self.text(),
    {
        let mut s = String::from_str("Object ID: ");
        push_decimal(&mut s, self.object_id as u64);
        s.append(", Cell ID: (");
        push_decimal(&mut s, self.cell_id.0 as u64);
        s.append(", ");
        push_decimal(&mut s, self.cell_id.1 as u64);
        s.append(", ");
        push_decimal(&mut s, self.cell_id.2 as u64);
        s.append("), Type: ");
        let t = self.cell_object_type.to_string();
        s.append(t.as_str());
        assert(s@ =~= self.text());
        s
    }

    pub fn new(cell_id: (u32, u32, u32), cell_type: CellIdType, object_id: usize) -> (r: Self)
        ensures
            r.cell_id == cell_id,
            r.cell_object_type == cell_type,
            r.object_id == object_id,
    {
        Self { cell_id, cell_object_type: cell_type, object_id }
    }
}

#[derive(Debug, Eq, PartialEq, PartialOrd, Ord, Clone, Copy, Structural)]
pub enum CellIdType {
    Home,
    Phantom,
}

impl CellIdType {
    /// The rank by which cells of one grid cell are ordered: home before phantom.
    pub open spec fn rank(self) -> int {
        match self {
            CellIdType::Home => 0,
            CellIdType::Phantom => 1,
        }
    }

    /// The text by which the type is shown.
    pub open spec fn text(self) -> Seq<char> {
        match self {
            CellIdType::Home => "CellIdType::Home"@,
            CellIdType::Phantom => "CellIdType::Phantom"@,
        }
    }

    pub fn to_string(&self) -> (r: String)
        ensures
            r@ == self.text(),
    {
        match self {
            Self::Home => String::from_str("CellIdType::Home"),
            Self::Phantom => String::from_str("CellIdType::Phantom"),
        }
    }
}

} // verus!
