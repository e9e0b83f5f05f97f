//! Image-job option lists: the computed part of the image-processing
//! requests the surrounding service submits.
//!
//! A job names an operation and carries string options; numeric options a
//! caller left unset are omitted rather than defaulted.  Building that list
//! is plain computation and is verified here; submitting the job is platform
//! I/O and stays with the caller.

use vstd::prelude::*;

use crate::text::dec_bytes;

verus! {

/// The option list a set of optional numeric settings produces: the set
/// entries, in order, rendered in decimal.
pub open spec fn options_spec(pairs: Seq<(String, Option<u64>)>) -> Seq<(Seq<char>, Seq<u8>)>
    decreases pairs.len(),
{
    if pairs.len() == 0 {
        Seq::empty()
    } else {
        let rest = options_spec(pairs.drop_last());
        match pairs.last().1 {
            Option::Some(v) => rest.push((pairs.last().0@, dec_bytes(v as nat))),
            Option::None => rest,
        }
    }
}

/// Builds the option list of an image job from optional numeric settings:
/// exactly the settings that are present, in order, with decimal values.
#[verifier::loop_isolation(false)]
pub fn build_job_options(pairs: Vec<(String, Option<u64>)>) -> (r: Vec<(String, Vec<u8>)>)
    ensures
        r@.map_values(|o: (String, Vec<u8>)| (o.0@, o.1@)) == options_spec(pairs@),
{
    let n = pairs.len();
    let mut out: Vec<(String, Vec<u8>)> = Vec::new();
    let mut k: usize = 0;
    while k < n
        invariant
            k <= n == pairs@.len(),
            out@.map_values(|o: (String, Vec<u8>)| (o.0@, o.1@)) == options_spec(
                pairs@.take(k as int),
            ),
        decreases n - k,
    {
        let (name, setting) = &pairs[k];
        match setting {
            Some(v) => {
                let rendered = crate::text::u64_to_dec(*v);
                let owned = name.clone();
                proof {
                    assert(owned@ == pairs@[k as int].0@);
                }
                out.push((owned, rendered));
            },
            None => {},
        }
        proof {
            assert(pairs@.take(k + 1).drop_last() =~= pairs@.take(k as int));
            assert(pairs@.take(k + 1).last() == pairs@[k as int]);
            assert(out@.map_values(|o: (String, Vec<u8>)| (o.0@, o.1@)) =~= options_spec(
                pairs@.take(k + 1),
            ));
        }
        k += 1;
    }
    proof {
        assert(pairs@.take(n as int) =~= pairs@);
    }
    out
}

} // verus!
