use vstd::prelude::*;

verus! {

/// The tick lengths that cover `elapsed`, each the smaller of what remains
/// and `max_step`, until nothing remains.
pub open spec fn substeps(elapsed: nat, max_step: nat) -> Seq<nat>
    decreases elapsed,
{
    if elapsed == 0 || max_step == 0 {
        Seq::empty()
    } else if elapsed <= max_step {
        seq![elapsed]
    } else {
        seq![max_step] + substeps((elapsed - max_step) as nat, max_step)
    }
}

/// Splits `elapsed` microseconds into ticks of at most `max_step`
/// microseconds, so that no single tick exceeds it however long a frame
/// took.
pub fn tick_lengths(elapsed: u64, max_step: u64) -> (r: Vec<u64>)
    requires
        max_step > 0,
    ensures
        r@.map_values(|d: u64| d as nat) == substeps(elapsed as nat, max_step as nat),
{
    let mut r: Vec<u64> = Vec::new();
    let mut remaining: u64 = elapsed;
    while remaining > 0
        invariant
            max_step > 0,
            remaining <= elapsed,
            r@.map_values(|d: u64| d as nat) + substeps(remaining as nat, max_step as nat)
                == substeps(elapsed as nat, max_step as nat),
        decreases remaining,
    {
        let step = if remaining < max_step {
            remaining
        } else {
            max_step
        };
        let ghost before = r@;
        r.push(step);
        proof {
            let rest = (remaining - step) as nat;
            assert(substeps(remaining as nat, max_step as nat) =~= seq![step as nat] + substeps(
                rest,
                max_step as nat,
            ));
            assert(r@.map_values(|d: u64| d as nat) =~= before.map_values(|d: u64| d as nat).push(
                step as nat,
            ));
            assert(r@.map_values(|d: u64| d as nat) + substeps(rest, max_step as nat) =~= before.map_values(
                |d: u64| d as nat,
            ) + (seq![step as nat] + substeps(rest, max_step as nat)));
        }
        remaining = remaining - step;
    }
    proof {
        assert(r@.map_values(|d: u64| d as nat) + Seq::<nat>::empty() =~= r@.map_values(
            |d: u64| d as nat,
        ));
    }
    r
}

} // verus!
