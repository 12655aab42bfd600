//! Square matrices of two to four rows: their layout, and the transforms of space.

use vstd::prelude::*;
use crate::types::scalar::Scalar;
use crate::types::tuple::Tuple;

verus! {

/// The three coordinate axes a rotation can turn about.
#[derive(Clone, Copy, Debug)]
pub enum Axis {
    X,
    Y,
    Z,
}

/// A square matrix of two, three or four rows.
///
/// Its view is the sequence of its rows, each a sequence of as many entries.
#[derive(Clone, Copy, Debug)]
pub struct Matrix {
    values: [Scalar; 16],
    size: usize,
}

impl View for Matrix {
    type V = Seq<Seq<Scalar>>;

    closed spec fn view(&self) -> Seq<Seq<Scalar>> {
        Seq::new(
            self.size as nat,
            |r: int| Seq::new(self.size as nat, |c: int| self.values@[r * 4 + c]),
        )
    }
}

impl Matrix {
    #[verifier::type_invariant]
    spec fn well_formed(&self) -> bool {
        2 <= self.size <= 4
    }

    /// The `n` rows of `n` entries that `values` holds row after row.
    pub open spec fn grid(values: Seq<Scalar>, n: nat) -> Seq<Seq<Scalar>> {
        Seq::new(n, |r: int| Seq::new(n, |c: int| values[r * n + c]))
    }

    /// `n` rows of `n` entries, each given by its row and column.
    pub open spec fn square(n: nat, entry: spec_fn(int, int) -> Scalar) -> Seq<Seq<Scalar>> {
        Seq::new(n, |r: int| Seq::new(n, |c: int| entry(r, c)))
    }

    /// Whether `m` has `n` rows of `n` entries.
    pub open spec fn is_square(m: Seq<Seq<Scalar>>, n: nat) -> bool {
        m.len() == n && forall|r: int| 0 <= r < n ==> (#[trigger] m[r]).len() == n
    }

    /// Rows for columns.
    pub open spec fn spec_transpose(m: Seq<Seq<Scalar>>) -> Seq<Seq<Scalar>> {
        Self::square(m.len(), |r: int, c: int| m[c][r])
    }

    /// The matrix from which row `row` and column `col` are taken out.
    pub open spec fn spec_submatrix(m: Seq<Seq<Scalar>>, row: int, col: int) -> Seq<Seq<Scalar>> {
        Self::square(
            (m.len() - 1) as nat,
            |i: int, j: int| m[Self::kept(i, row)][Self::kept(j, col)],
        )
    }

    /// The index that the `i`-th row or column kept has in the matrix from
    /// which row or column `removed` was taken out.
    pub open spec fn kept(i: int, removed: int) -> int {
        if i < removed {
            i
        } else {
            i + 1
        }
    }

    /// The matrix of four rows that holds `values` row after row.
    pub fn new_4x4(values: [Scalar; 16]) -> (m: Self)
        ensures
            m@ == Self::grid(values@, 4),
    {
        let m = Self { values, size: 4 };
        assert(m@ =~~= Self::grid(values@, 4));
        m
    }

    /// The matrix of three rows that holds `values` row after row.
    pub fn new_3x3(values: [Scalar; 9]) -> (m: Self)
        ensures
            m@ == Self::grid(values@, 3),
    {
        let z = Scalar::zero();
        let m = Self {
            values: [
                values[0], values[1], values[2], z,
                values[3], values[4], values[5], z,
                values[6], values[7], values[8], z,
                z, z, z, z,
            ],
            size: 3,
        };
        assert(m@ =~~= Self::grid(values@, 3));
        m
    }

    /// The matrix of two rows that holds `values` row after row.
    pub fn new_2x2(values: [Scalar; 4]) -> (m: Self)
        ensures
            m@ == Self::grid(values@, 2),
    {
        let z = Scalar::zero();
        let m = Self {
            values: [
                values[0], values[1], z, z,
                values[2], values[3], z, z,
                z, z, z, z,
                z, z, z, z,
            ],
            size: 2,
        };
        assert(m@ =~~= Self::grid(values@, 2));
        m
    }

    /// The matrix of `size` rows whose entries are all zero.
    pub fn default(size: usize) -> (m: Self)
        requires
            2 <= size <= 4,
        ensures
            m@ == Self::square(size as nat, |r: int, c: int| Scalar::spec_zero()),
    {
        let m = Self { values: [Scalar::zero(); 16], size };
        assert(m@ =~~= Self::square(size as nat, |r: int, c: int| Scalar::spec_zero()));
        m
    }

    /// The number of rows, which is the number of columns.
    pub fn size(&self) -> (n: usize)
        ensures
            n == self@.len(),
            2 <= n <= 4,
            Self::is_square(self@, n as nat),
    {
        proof {
            use_type_invariant(self);
        }
        self.size
    }

    /// The entry in row `index.0` and column `index.1`.
    pub fn index(&self, index: (usize, usize)) -> (v: Scalar)
        requires
            index.0 < self@.len(),
            index.1 < self@.len(),
        ensures
            v == self@[index.0 as int][index.1 as int],
    {
        proof {
            use_type_invariant(self);
        }
        self.values[index.0 * 4 + index.1]
    }

    /// Replaces the entry in row `index.0` and column `index.1`.
    pub fn set(&mut self, index: (usize, usize), value: Scalar)
        requires
            index.0 < old(self)@.len(),
            index.1 < old(self)@.len(),
        ensures
            final(self)@ == old(self)@.update(
                index.0 as int,
                old(self)@[index.0 as int].update(index.1 as int, value),
            ),
    {
        proof {
            use_type_invariant(&*self);
        }
        self.values[index.0 * 4 + index.1] = value;
        assert(self@ =~~= old(self)@.update(
            index.0 as int,
            old(self)@[index.0 as int].update(index.1 as int, value),
        ));
    }

    /// Rows become columns.
    pub fn transpose(&self) -> (m: Self)
        ensures
            m@ == Self::spec_transpose(self@),
    {
        proof {
            use_type_invariant(self);
        }
        let v = &self.values;
        let m = Self {
            values: [
                v[0], v[4], v[8], v[12],
                v[1], v[5], v[9], v[13],
                v[2], v[6], v[10], v[14],
                v[3], v[7], v[11], v[15],
            ],
            size: self.size,
        };
        assert(m@ =~~= Self::spec_transpose(self@));
        m
    }

    /// The matrix without row `row` and column `col`, one size smaller.
    pub fn submatrix(&self, row: usize, col: usize) -> (m: Self)
        requires
            self@.len() >= 3,
            row < self@.len(),
            col < self@.len(),
        ensures
            m@ == Self::spec_submatrix(self@, row as int, col as int),
    {
        proof {
            use_type_invariant(self);
        }
        let n: usize = self.size - 1;
        let mut values: [Scalar; 16] = [Scalar::zero(); 16];
        let mut i: usize = 0;
        while i < n
            invariant
                n == self.size - 1,
                3 <= self.size <= 4,
                i <= n,
                row < self.size,
                col < self.size,
                forall|a: int, b: int|
                    0 <= a < i && 0 <= b < n ==> #[trigger] values@[a * 4 + b] == self.values@[
                        Self::kept(a, row as int) * 4 + Self::kept(b, col as int)],
            decreases n - i,
        {
            let from_row: usize = if i < row { i } else { i + 1 };
            let mut j: usize = 0;
            while j < n
                invariant
                    n == self.size - 1,
                    3 <= self.size <= 4,
                    i < n,
                    j <= n,
                    row < self.size,
                    col < self.size,
                    from_row == Self::kept(i as int, row as int),
                    forall|a: int, b: int|
                        0 <= a < i && 0 <= b < n ==> #[trigger] values@[a * 4 + b]
                            == self.values@[Self::kept(a, row as int) * 4 + Self::kept(
                            b,
                            col as int,
                        )],
                    forall|b: int|
                        0 <= b < j ==> #[trigger] values@[i * 4 + b] == self.values@[from_row * 4
                            + Self::kept(b, col as int)],
                decreases n - j,
            {
                let from_col: usize = if j < col { j } else { j + 1 };
                values[i * 4 + j] = self.values[from_row * 4 + from_col];
                j += 1;
            }
            i += 1;
        }
        let m = Self { values, size: n };
        assert(m@ =~~= Self::spec_submatrix(self@, row as int, col as int));
        m
    }

    /// The entries of the identity matrix, row after row.
    pub open spec fn identity_entries() -> Seq<Scalar> {
        let o = Scalar::spec_one();
        let z = Scalar::spec_zero();
        seq![o, z, z, z, z, o, z, z, z, z, o, z, z, z, z, o]
    }

    /// The entries of the matrix that moves a point by `(x, y, z)`.
    pub open spec fn translation_entries(x: Scalar, y: Scalar, z: Scalar) -> Seq<Scalar> {
        let i = Scalar::spec_one();
        let o = Scalar::spec_zero();
        seq![i, o, o, x, o, i, o, y, o, o, i, z, o, o, o, i]
    }

    /// The entries of the matrix that stretches each axis by its factor.
    pub open spec fn scaling_entries(x: Scalar, y: Scalar, z: Scalar) -> Seq<Scalar> {
        let i = Scalar::spec_one();
        let o = Scalar::spec_zero();
        seq![x, o, o, o, o, y, o, o, o, o, z, o, o, o, o, i]
    }

    /// The entries of the matrix that moves each coordinate in proportion to
    /// the two others.
    pub open spec fn shearing_entries(
        xy: Scalar,
        xz: Scalar,
        yx: Scalar,
        yz: Scalar,
        zx: Scalar,
        zy: Scalar,
    ) -> Seq<Scalar> {
        let i = Scalar::spec_one();
        let o = Scalar::spec_zero();
        seq![i, xy, xz, o, yx, i, yz, o, zx, zy, i, o, o, o, o, i]
    }

    /// The entries of the right-handed rotation about `axis` by the angle
    /// whose cosine and sine are given.
    pub open spec fn rotation_entries(axis: Axis, cos: Scalar, sin: Scalar) -> Seq<Scalar> {
        let i = Scalar::spec_one();
        let o = Scalar::spec_zero();
        let n = sin.spec_neg();
        match axis {
            Axis::X => seq![i, o, o, o, o, cos, n, o, o, sin, cos, o, o, o, o, i],
            Axis::Y => seq![cos, o, sin, o, o, i, o, o, n, o, cos, o, o, o, o, i],
            Axis::Z => seq![cos, n, o, o, sin, cos, o, o, o, o, i, o, o, o, o, i],
        }
    }

    /// The entries of the matrix that turns the world to face a camera
    /// whose left, up and forward directions are given.
    pub open spec fn orientation_entries(left: Tuple, up: Tuple, forward: Tuple) -> Seq<Scalar> {
        let i = Scalar::spec_one();
        let o = Scalar::spec_zero();
        let f = forward.spec_neg();
        seq![left.x, left.y, left.z, o, up.x, up.y, up.z, o, f.x, f.y, f.z, o, o, o, o, i]
    }

    /// The cofactor that belongs to a minor: the minor itself where row and
    /// column add up to an even number, else the minor with its sign changed.
    pub open spec fn spec_cofactor(minor: Scalar, row: int, col: int) -> Scalar {
        if (row + col) % 2 == 0 {
            minor
        } else {
            minor.spec_neg()
        }
    }

    /// The identity matrix, which exists with four rows only.
    pub fn identity(size: usize) -> (m: Self)
        requires
            size == 4,
        ensures
            m@ == Self::grid(Self::identity_entries(), 4),
            m@ == Self::square(
                4,
                |r: int, c: int|
                    if r == c {
                        Scalar::spec_one()
                    } else {
                        Scalar::spec_zero()
                    },
            ),
    {
        let i = Scalar::one();
        let o = Scalar::zero();
        let values = [i, o, o, o, o, i, o, o, o, o, i, o, o, o, o, i];
        assert(values@ =~= Self::identity_entries());
        let m = Self::new_4x4(values);
        assert(m@ =~~= Self::square(
            4,
            |r: int, c: int|
                if r == c {
                    Scalar::spec_one()
                } else {
                    Scalar::spec_zero()
                },
        ));
        m
    }

    /// The matrix that moves a point by `(x, y, z)` and leaves a direction as it is.
    pub fn translation(x: Scalar, y: Scalar, z: Scalar) -> (m: Self)
        ensures
            m@ == Self::grid(Self::translation_entries(x, y, z), 4),
    {
        let i = Scalar::one();
        let o = Scalar::zero();
        let values = [i, o, o, x, o, i, o, y, o, o, i, z, o, o, o, i];
        assert(values@ =~= Self::translation_entries(x, y, z));
        Self::new_4x4(values)
    }

    /// The matrix that stretches each axis by its factor.
    pub fn scaling(x: Scalar, y: Scalar, z: Scalar) -> (m: Self)
        ensures
            m@ == Self::grid(Self::scaling_entries(x, y, z), 4),
    {
        let i = Scalar::one();
        let o = Scalar::zero();
        let values = [x, o, o, o, o, y, o, o, o, o, z, o, o, o, o, i];
        assert(values@ =~= Self::scaling_entries(x, y, z));
        Self::new_4x4(values)
    }

    /// The matrix that moves each coordinate in proportion to the two others.
    pub fn shearing(xy: Scalar, xz: Scalar, yx: Scalar, yz: Scalar, zx: Scalar, zy: Scalar) -> (m:
        Self)
        ensures
            m@ == Self::grid(Self::shearing_entries(xy, xz, yx, yz, zx, zy), 4),
    {
        let i = Scalar::one();
        let o = Scalar::zero();
        let values = [i, xy, xz, o, yx, i, yz, o, zx, zy, i, o, o, o, o, i];
        assert(values@ =~= Self::shearing_entries(xy, xz, yx, yz, zx, zy));
        Self::new_4x4(values)
    }

    /// The rotation about the x axis by the angle with this cosine and sine.
    pub fn rotation_x(cos: Scalar, sin: Scalar) -> (m: Self)
        ensures
            m@ == Self::grid(Self::rotation_entries(Axis::X, cos, sin), 4),
    {
        let i = Scalar::one();
        let o = Scalar::zero();
        let n = sin.neg();
        let values = [i, o, o, o, o, cos, n, o, o, sin, cos, o, o, o, o, i];
        assert(values@ =~= Self::rotation_entries(Axis::X, cos, sin));
        Self::new_4x4(values)
    }

    /// The rotation about the y axis by the angle with this cosine and sine.
    pub fn rotation_y(cos: Scalar, sin: Scalar) -> (m: Self)
        ensures
            m@ == Self::grid(Self::rotation_entries(Axis::Y, cos, sin), 4),
    {
        let i = Scalar::one();
        let o = Scalar::zero();
        let n = sin.neg();
        let values = [cos, o, sin, o, o, i, o, o, n, o, cos, o, o, o, o, i];
        assert(values@ =~= Self::rotation_entries(Axis::Y, cos, sin));
        Self::new_4x4(values)
    }

    /// The rotation about the z axis by the angle with this cosine and sine.
    pub fn rotation_z(cos: Scalar, sin: Scalar) -> (m: Self)
        ensures
            m@ == Self::grid(Self::rotation_entries(Axis::Z, cos, sin), 4),
    {
        let i = Scalar::one();
        let o = Scalar::zero();
        let n = sin.neg();
        let values = [cos, n, o, o, sin, cos, o, o, o, o, i, o, o, o, o, i];
        assert(values@ =~= Self::rotation_entries(Axis::Z, cos, sin));
        Self::new_4x4(values)
    }

    /// The rotation about `axis` by the angle with this cosine and sine.
    pub fn rotation(axis: Axis, cos: Scalar, sin: Scalar) -> (m: Self)
        ensures
            m@ == Self::grid(Self::rotation_entries(axis, cos, sin), 4),
    {
        match axis {
            Axis::X => Self::rotation_x(cos, sin),
            Axis::Y => Self::rotation_y(cos, sin),
            Axis::Z => Self::rotation_z(cos, sin),
        }
    }

    /// The matrix that turns the world to face a camera whose left, up and
    /// forward directions are given.
    pub fn orientation(left: Tuple, up: Tuple, forward: Tuple) -> (m: Self)
        ensures
            m@ == Self::grid(Self::orientation_entries(left, up, forward), 4),
    {
        let i = Scalar::one();
        let o = Scalar::zero();
        let f = forward.neg();
        let values = [left.x, left.y, left.z, o, up.x, up.y, up.z, o, f.x, f.y, f.z, o, o, o, o, i];
        assert(values@ =~= Self::orientation_entries(left, up, forward));
        Self::new_4x4(values)
    }

    /// The cofactor at `row` and `col`, from the minor there.
    pub fn calc_cofactor(minor: Scalar, row: usize, col: usize) -> (c: Scalar)
        requires
            row < 4,
            col < 4,
        ensures
            c == Self::spec_cofactor(minor, row as int, col as int),
    {
        if (row + col) % 2 == 0 {
            minor
        } else {
            minor.neg()
        }
    }

    /// Whether a matrix with this determinant can be inverted: whenever the
    /// determinant is not equal to zero, however small it is.
    pub fn invertible(determinant: Scalar) -> (r: bool)
        ensures
            r == !determinant.spec_eq(Scalar::spec_zero()),
    {
        !determinant.num_eq(Scalar::zero())
    }

    /// The table of cofactors as the inverse needs it, from the table of
    /// minors: the entry in row `r` and column `c` is the cofactor of the
    /// entry in row `c` and column `r`.
    pub open spec fn spec_cofactor_array(minors: Seq<Seq<Scalar>>) -> Seq<Seq<Scalar>> {
        Self::square(minors.len(), |r: int, c: int| Self::spec_cofactor(minors[c][r], c, r))
    }

    /// The table of cofactors as the inverse needs it, from the table of
    /// minors.
    pub fn cofactor_array(minors: &Matrix) -> (m: Self)
        ensures
            m@ == Self::spec_cofactor_array(minors@),
    {
        let n: usize = minors.size();
        let mut m = Self::default(n);
        let mut r: usize = 0;
        while r < n
            invariant
                r <= n,
                n == minors@.len(),
                2 <= n <= 4,
                Self::is_square(minors@, n as nat),
                Self::is_square(m@, n as nat),
                forall|a: int, b: int|
                    0 <= a < r && 0 <= b < n ==> #[trigger] m@[a][b] == Self::spec_cofactor(
                        minors@[b][a],
                        b,
                        a,
                    ),
            decreases n - r,
        {
            let mut c: usize = 0;
            while c < n
                invariant
                    r < n,
                    c <= n,
                    n == minors@.len(),
                    2 <= n <= 4,
                    Self::is_square(minors@, n as nat),
                    Self::is_square(m@, n as nat),
                    forall|a: int, b: int|
                        0 <= a < r && 0 <= b < n ==> #[trigger] m@[a][b] == Self::spec_cofactor(
                            minors@[b][a],
                            b,
                            a,
                        ),
                    forall|b: int|
                        0 <= b < c ==> #[trigger] m@[r as int][b] == Self::spec_cofactor(
                            minors@[b][r as int],
                            b,
                            r as int,
                        ),
                decreases n - c,
            {
                let cofactor = Self::calc_cofactor(minors.index((c, r)), c, r);
                m.set((r, c), cofactor);
                c += 1;
            }
            r += 1;
        }
        assert(m@ =~~= Self::spec_cofactor_array(minors@));
        m
    }

    /// Transposing twice gives the matrix back.
    pub proof fn lemma_transpose_twice(m: Seq<Seq<Scalar>>)
        requires
            Self::is_square(m, m.len()),
        ensures
            Self::spec_transpose(Self::spec_transpose(m)) == m,
    {
        assert(Self::spec_transpose(Self::spec_transpose(m)) =~~= m);
    }

    /// Taking a row and a column out of the transposed matrix gives the
    /// transposed of what taking that column and that row out gives.
    pub proof fn lemma_submatrix_of_transpose(m: Seq<Seq<Scalar>>, row: int, col: int)
        requires
            Self::is_square(m, m.len()),
            m.len() >= 1,
            0 <= row < m.len(),
            0 <= col < m.len(),
        ensures
            Self::spec_submatrix(Self::spec_transpose(m), row, col) == Self::spec_transpose(
                Self::spec_submatrix(m, col, row),
            ),
    {
        assert(Self::spec_submatrix(Self::spec_transpose(m), row, col) =~~= Self::spec_transpose(
            Self::spec_submatrix(m, col, row),
        ));
    }
}

} // verus!
