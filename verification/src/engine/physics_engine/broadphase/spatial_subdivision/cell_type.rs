use vstd::prelude::*;

verus! {

/// The four parity classes of a grid cell. A cell `(x, y)` belongs to class
/// `One` when both coordinates are even, `Two` when only `x` is odd, `Three`
/// when only `y` is odd and `Four` when both are odd. Cells of the same class
/// never touch, which is what lets the broad phase test one class per pass.
#[derive(PartialEq, Eq, PartialOrd, Ord, Debug, Clone, Copy, Structural)]
pub enum CellType {
    One,
    Two,
    Three,
    Four,
}

impl CellType {
    /// Parity of the x coordinate of the cells of this class.
    pub open spec fn x_parity(self) -> int {
        match self {
            CellType::One | CellType::Three => 0,
            CellType::Two | CellType::Four => 1,
        }
    }

    /// Parity of the y coordinate of the cells of this class.
    pub open spec fn y_parity(self) -> int {
        match self {
            CellType::One | CellType::Two => 0,
            CellType::Three | CellType::Four => 1,
        }
    }

    /// Index (0 to 3) of the class: the x parity plus twice the y parity.
    pub open spec fn index(self) -> int {
        self.x_parity() + 2 * self.y_parity()
    }

    /// The class whose cells have the given coordinate parities.
    pub open spec fn from_parities(x: int, y: int) -> CellType {
        if x % 2 == 0 {
            if y % 2 == 0 { CellType::One } else { CellType::Three }
        } else {
            if y % 2 == 0 { CellType::Two } else { CellType::Four }
        }
    }

    /// The class of the vertically adjacent cells: the y parity flips.
    pub open spec fn vertical_of(self) -> CellType {
        CellType::from_parities(self.x_parity(), 1 - self.y_parity())
    }

    /// The class of the horizontally adjacent cells: the x parity flips.
    pub open spec fn horizontal_of(self) -> CellType {
        CellType::from_parities(1 - self.x_parity(), self.y_parity())
    }

    /// The class of the diagonally adjacent cells: both parities flip.
    pub open spec fn diagonal_of(self) -> CellType {
        CellType::from_parities(1 - self.x_parity(), 1 - self.y_parity())
    }

    pub fn top_neighbor(&self) -> (r: Self)
        ensures
            r == self.vertical_of(),
    {
        match self {
            Self::One => Self::Three,
            Self::Three => Self::One,
            Self::Two => Self::Four,
            Self::Four => Self::Two,
        }
    }

    pub fn bottom_neighbor(&self) -> (r: Self)
        ensures
            r == self.vertical_of(),
    {
        self.top_neighbor()
    }

    pub fn left_neighor(&self) -> (r: Self)
        ensures
            r == self.horizontal_of(),
    {
        match self {
            Self::One => Self::Two,
            Self::Two => Self::One,
            Self::Three => Self::Four,
            Self::Four => Self::Three,
        }
    }

    pub fn right_neighbor(&self) -> (r: Self)
        ensures
            r == self.horizontal_of(),
    {
        self.left_neighor()
    }

    pub fn top_left_neighor(&self) -> (r: Self)
        ensures
            r == self.diagonal_of(),
    {
        match self {
            Self::One => Self::Four,
            Self::Two => Self::Three,
            Self::Three => Self::Two,
            Self::Four => Self::One,
        }
    }

    pub fn bottom_right_neighbor(&self) -> (r: Self)
        ensures
            r == self.diagonal_of(),
    {
        self.top_left_neighor()
    }
}

/// A class is determined by its two coordinate parities, and every class is
/// the class of its own parities.
pub proof fn lemma_class_is_its_parities(c: CellType, d: CellType)
    ensures
        CellType::from_parities(c.x_parity(), c.y_parity()) == c,
        (c.x_parity() == d.x_parity() && c.y_parity() == d.y_parity()) ==> c == d,
{
}

/// Stepping to a neighbouring class twice in the same direction returns to
/// the starting class.
pub proof fn lemma_neighbor_steps_are_involutions(c: CellType)
    ensures
        c.vertical_of().vertical_of() == c,
        c.horizontal_of().horizontal_of() == c,
        c.diagonal_of().diagonal_of() == c,
{
}

/// The diagonal neighbour is reached by one vertical and one horizontal step,
/// in either order.
pub proof fn lemma_diagonal_is_vertical_and_horizontal(c: CellType)
    ensures
        c.diagonal_of() == c.vertical_of().horizontal_of(),
        c.diagonal_of() == c.horizontal_of().vertical_of(),
{
}

/// No neighbouring cell shares the class of the cell itself, and the three
/// neighbouring classes are pairwise distinct: a cell and its neighbours in
/// one quadrant cover all four classes.
pub proof fn lemma_neighbor_classes_are_distinct(c: CellType)
    ensures
        c.vertical_of() != c,
        c.horizontal_of() != c,
        c.diagonal_of() != c,
        c.vertical_of() != c.horizontal_of(),
        c.vertical_of() != c.diagonal_of(),
        c.horizontal_of() != c.diagonal_of(),
{
}

} // verus!
