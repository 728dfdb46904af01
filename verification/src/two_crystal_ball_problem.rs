use vstd::prelude::*;

verus! {

/// Whether the next jump size, one larger, still has its square within `n`.
fn square_fits(j: usize, n: usize) -> (r: bool)
    requires
        j <= n,
        n < 0x8000_0000,
    ensures
        r == ((j + 1) * (j + 1) <= n),
{
    let a = (j as u64) + 1;
    proof {
        assert((a as int) * (a as int) <= 0x4000_0000_0000_0000int) by (nonlinear_arith)
            requires
                0 <= (a as int) <= 0x80000000int,
        ;
    }
    a * a <= (n as u64)
}

/// Finds the first floor at which a ball breaks, given a monotone record of
/// break results: once a floor breaks, every floor above it breaks too. The
/// first ball jumps ahead by the square root of the number of floors; the
/// second scans the last jump linearly. Returns the lowest breaking floor,
/// or -1 when no floor breaks.
pub fn two_crystal_balls(breaks: &[bool]) -> (r: i32)
    requires
        breaks@.len() < 0x8000_0000,
        forall|i: int, j: int| 0 <= i <= j < breaks@.len() && breaks@[i] ==> breaks@[j],
    ensures
        (exists|i: int| 0 <= i < breaks@.len() && breaks@[i]) ==> {
            &&& 0 <= r < breaks@.len()
            &&& breaks@[r as int]
            &&& forall|i: int| 0 <= i < r ==> !breaks@[i]
        },
        (forall|i: int| 0 <= i < breaks@.len() ==> !breaks@[i]) ==> r == -1,
{
    let n = breaks.len();

    let mut jump_amount: usize = 0;
    while square_fits(jump_amount, n)
        invariant
            n == breaks@.len() < 0x8000_0000,
            jump_amount * jump_amount <= n,
            jump_amount <= n,
        decreases n - jump_amount,
    {
        proof {
            assert(jump_amount + 1 <= n) by (nonlinear_arith)
                requires
                    (jump_amount + 1) * (jump_amount + 1) <= n,
            ;
        }
        jump_amount += 1;
    }
    proof {
        if n > 0 && jump_amount == 0 {
            assert((jump_amount + 1) * (jump_amount + 1) == 1) by (nonlinear_arith)
                requires
                    jump_amount == 0,
            ;
        }
    }

    let mut starting_point = jump_amount;

    // first ball: jump forward until a break is seen or the floors run out
    while starting_point < n && !breaks[starting_point]
        invariant
            n == breaks@.len() < 0x8000_0000,
            jump_amount <= n,
            n > 0 ==> jump_amount >= 1,
            jump_amount <= starting_point <= n + jump_amount,
            forall|i: int, j: int| 0 <= i <= j < n && breaks@[i] ==> breaks@[j],
            starting_point > jump_amount ==> starting_point - jump_amount < n && !breaks@[
                starting_point - jump_amount],
        decreases n + jump_amount - starting_point,
    {
        starting_point += jump_amount;
    }

    let ghost limit = starting_point as int;
    proof {
        assert(limit >= n || breaks@[limit]);
    }

    starting_point -= jump_amount;

    proof {
        assert forall|i: int| 0 <= i < starting_point implies !breaks@[i] by {
            if breaks@[i] {
                assert(breaks@[starting_point as int]);
            }
        }
    }

    // second ball: scan one jump's worth of floors one by one
    let mut j: usize = 0;
    while j <= jump_amount && starting_point < n
        invariant
            n == breaks@.len() < 0x8000_0000,
            jump_amount <= n,
            j <= jump_amount + 1,
            starting_point + jump_amount == limit + j,
            limit >= n || breaks@[limit],
            forall|i: int, j2: int| 0 <= i <= j2 < n && breaks@[i] ==> breaks@[j2],
            forall|i: int| 0 <= i < starting_point ==> !breaks@[i],
        decreases jump_amount + 1 - j,
    {
        if breaks[starting_point] {
            return starting_point as i32;
        }

        j += 1;
        starting_point += 1;
    }

    proof {
        assert forall|i: int| 0 <= i < breaks@.len() implies !breaks@[i] by {
            if breaks@[i] {
                if limit < n {
                    assert(breaks@[limit]);
                    assert(limit < starting_point);
                }
            }
        }
    }
    -1
}

} // verus!
