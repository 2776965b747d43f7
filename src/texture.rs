use vstd::prelude::*;

verus! {

/// The checker cell at integer cell coordinates `(x, y, z)` takes the even
/// colour when the sum of its coordinates is even.
pub open spec fn even_cell(x: int, y: int, z: int) -> bool {
    (x + y + z) % 2 == 0
}

/// Whether the checker cell `(x, y, z)` (each coordinate the floor of the
/// point's coordinate divided by the checker scale) takes the even colour.
pub fn is_even_cell(x: i64, y: i64, z: i64) -> (r: bool)
    ensures
        r == even_cell(x as int, y as int, z as int),
{
    let parity = (x % 2 + y % 2 + z % 2) % 2;
    proof {
        assert((x as int + y as int + z as int) % 2 == ((x % 2) as int + (y % 2) as int + (z
            % 2) as int) % 2) by (nonlinear_arith);
    }
    parity == 0
}

} // verus!
