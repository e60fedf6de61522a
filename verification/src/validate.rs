//! The comparison contract of a validation run: which pressings of a
//! lookup response describe the same disc as the local rip, and which
//! local tracks those pressings confirm.

use vstd::prelude::*;

use crate::crc::CRCs;
use crate::fetch::TrackResult;
use crate::offset::DiscInfo;
use crate::ArError;

verus! {

/// Whether any pressing carries exactly the local disc identity.
pub open spec fn spec_has_matching_pressing(
    ps: Seq<(DiscInfo, Vec<TrackResult>)>,
    local: DiscInfo,
) -> bool {
    exists|i: int| 0 <= i < ps.len() && (#[trigger] ps[i]).0 == local
}

/// Whether the track at 0-based position `t` is confirmed: some
/// pressing with the local disc identity records exactly `crc` for it.
pub open spec fn spec_track_confirmed(
    ps: Seq<(DiscInfo, Vec<TrackResult>)>,
    local: DiscInfo,
    t: int,
    crc: u32,
) -> bool {
    exists|i: int|
        0 <= i < ps.len() && (#[trigger] ps[i]).0 == local && t < ps[i].1@.len()
            && ps[i].1@[t].crc == crc
}

/// Judges a rip against the pressings of a lookup response. A disc
/// whose identity matches no pressing at all is reported absent, as
/// [`ArError::NotFound`]. Otherwise each track is judged on its own:
/// `true` where its locally computed v1 checksum equals the recorded
/// checksum of that track in at least one matching pressing, `false`
/// where no matching pressing confirms it — one unconfirmed track
/// never aborts the rest.
pub fn validate_tracks(
    local: &DiscInfo,
    pressings: &Vec<(DiscInfo, Vec<TrackResult>)>,
    local_crcs: &Vec<CRCs>,
) -> (r: Result<Vec<bool>, ArError>)
    ensures
        !spec_has_matching_pressing(pressings@, *local) ==> r == Err::<Vec<bool>, ArError>(
            ArError::NotFound,
        ),
        spec_has_matching_pressing(pressings@, *local) ==> {
            &&& r is Ok
            &&& r.unwrap()@.len() == local_crcs@.len()
            &&& forall|t: int|
                0 <= t < local_crcs@.len() ==> #[trigger] r.unwrap()@[t] == spec_track_confirmed(
                    pressings@,
                    *local,
                    t,
                    local_crcs@[t].v1,
                )
        },
{
    let np = pressings.len();
    let mut any_match = false;
    let mut i: usize = 0;

    while i < np
        invariant
            np == pressings@.len(),
            0 <= i <= np,
            any_match == exists|ii: int| 0 <= ii < i && (#[trigger] pressings@[ii]).0 == *local,
        decreases np - i,
    {
        if pressings[i].0 == *local {
            any_match = true;
        }
        i = i + 1;
    }

    if !any_match {
        return Err(ArError::NotFound);
    }

    let nt = local_crcs.len();
    let mut statuses: Vec<bool> = Vec::new();
    let mut t: usize = 0;

    while t < nt
        invariant
            np == pressings@.len(),
            nt == local_crcs@.len(),
            0 <= t <= nt,
            statuses@.len() == t,
            forall|u: int|
                0 <= u < t ==> #[trigger] statuses@[u] == spec_track_confirmed(
                    pressings@,
                    *local,
                    u,
                    local_crcs@[u].v1,
                ),
        decreases nt - t,
    {
        let crc = local_crcs[t].v1;
        let mut confirmed = false;
        let mut j: usize = 0;

        while j < np
            invariant
                np == pressings@.len(),
                nt == local_crcs@.len(),
                0 <= t < nt,
                crc == local_crcs@[t as int].v1,
                0 <= j <= np,
                confirmed == exists|ii: int|
                    0 <= ii < j && (#[trigger] pressings@[ii]).0 == *local && (t as int)
                        < pressings@[ii].1@.len() && pressings@[ii].1@[t as int].crc == crc,
            decreases np - j,
        {
            if pressings[j].0 == *local {
                let track_results = &pressings[j].1;
                if t < track_results.len() && track_results[t].crc == crc {
                    confirmed = true;
                }
            }
            j = j + 1;
        }

        statuses.push(confirmed);
        t = t + 1;
    }

    Ok(statuses)
}

} // verus!
