//! Random image-effect selection: between one and five effects from a fixed
//! palette, never the same effect twice in a row.

use vstd::prelude::*;

use rand::Rng;

verus! {

/// How many effects the palette holds.
pub const EFFECT_COUNT: usize = 15;

/// The palette, by index.
pub open spec fn effect_name_spec(i: int) -> Seq<char> {
    if i == 0 {
        "bloom"@
    } else if i == 1 {
        "blur"@
    } else if i == 2 {
        "deepfry"@
    } else if i == 3 {
        "fisheye"@
    } else if i == 4 {
        "flip"@
    } else if i == 5 {
        "flop"@
    } else if i == 6 {
        "globe"@
    } else if i == 7 {
        "grayscale"@
    } else if i == 8 {
        "invert"@
    } else if i == 9 {
        "jpeg"@
    } else if i == 10 {
        "magik"@
    } else if i == 11 {
        "neon"@
    } else if i == 12 {
        "paint"@
    } else if i == 13 {
        "pixelate"@
    } else {
        "rainbow"@
    }
}

/// The palette entry at `i`.
pub fn effect_name(i: usize) -> (r: String)
    requires
        i < EFFECT_COUNT,
    ensures
        r@ == effect_name_spec(i as int),
{
    if i == 0 {
        "bloom".to_owned()
    } else if i == 1 {
        "blur".to_owned()
    } else if i == 2 {
        "deepfry".to_owned()
    } else if i == 3 {
        "fisheye".to_owned()
    } else if i == 4 {
        "flip".to_owned()
    } else if i == 5 {
        "flop".to_owned()
    } else if i == 6 {
        "globe".to_owned()
    } else if i == 7 {
        "grayscale".to_owned()
    } else if i == 8 {
        "invert".to_owned()
    } else if i == 9 {
        "jpeg".to_owned()
    } else if i == 10 {
        "magik".to_owned()
    } else if i == 11 {
        "neon".to_owned()
    } else if i == 12 {
        "paint".to_owned()
    } else if i == 13 {
        "pixelate".to_owned()
    } else {
        "rainbow".to_owned()
    }
}

/// Relies on `rand::Rng::gen_range` over `0..n`, which panics only on an
/// empty range and returns a value of the range, drawn from the thread's
/// generator.
#[verifier::external_body]
fn random_below(n: usize) -> (r: usize)
    requires
        n >= 1,
    ensures
        r < n,
{
    rand::thread_rng().gen_range(0..n)
}

/// Shape facts that tell the palette names apart.
spec fn name_len(i: int) -> int {
    if i == 0 { 5 } else if i == 1 { 4 } else if i == 2 { 7 } else if i == 3 { 7 }
    else if i == 4 { 4 } else if i == 5 { 4 } else if i == 6 { 5 } else if i == 7 { 9 }
    else if i == 8 { 6 } else if i == 9 { 4 } else if i == 10 { 5 } else if i == 11 { 4 }
    else if i == 12 { 5 } else if i == 13 { 8 } else { 7 }
}

spec fn name_c0(i: int) -> char {
    if i == 0 { 'b' } else if i == 1 { 'b' } else if i == 2 { 'd' } else if i == 3 { 'f' }
    else if i == 4 { 'f' } else if i == 5 { 'f' } else if i == 6 { 'g' } else if i == 7 { 'g' }
    else if i == 8 { 'i' } else if i == 9 { 'j' } else if i == 10 { 'm' } else if i == 11 { 'n' }
    else if i == 12 { 'p' } else if i == 13 { 'p' } else { 'r' }
}

spec fn name_c2(i: int) -> char {
    if i == 0 { 'o' } else if i == 1 { 'u' } else if i == 2 { 'e' } else if i == 3 { 's' }
    else if i == 4 { 'i' } else if i == 5 { 'o' } else if i == 6 { 'o' } else if i == 7 { 'a' }
    else if i == 8 { 'v' } else if i == 9 { 'e' } else if i == 10 { 'g' } else if i == 11 { 'o' }
    else if i == 12 { 'i' } else if i == 13 { 'x' } else { 'i' }
}

proof fn lemma_effect_shape(i: int)
    requires
        0 <= i < EFFECT_COUNT,
    ensures
        effect_name_spec(i).len() == name_len(i),
        effect_name_spec(i)[0] == name_c0(i),
        effect_name_spec(i)[2] == name_c2(i),
{
    reveal_strlit("bloom");
    reveal_strlit("blur");
    reveal_strlit("deepfry");
    reveal_strlit("fisheye");
    reveal_strlit("flip");
    reveal_strlit("flop");
    reveal_strlit("globe");
    reveal_strlit("grayscale");
    reveal_strlit("invert");
    reveal_strlit("jpeg");
    reveal_strlit("magik");
    reveal_strlit("neon");
    reveal_strlit("paint");
    reveal_strlit("pixelate");
    reveal_strlit("rainbow");
}

/// Distinct palette indices name distinct effects.
pub proof fn lemma_effect_names_distinct(i: int, j: int)
    requires
        0 <= i < EFFECT_COUNT,
        0 <= j < EFFECT_COUNT,
        i != j,
    ensures
        effect_name_spec(i) != effect_name_spec(j),
{
    lemma_effect_shape(i);
    lemma_effect_shape(j);
    if effect_name_spec(i) == effect_name_spec(j) {
        assert(name_len(i) == name_len(j));
        assert(name_c0(i) == name_c0(j));
        assert(name_c2(i) == name_c2(j));
        assert(false);
    }
}

/// The string is one of the palette's effect names.
pub open spec fn is_effect_name(s: Seq<char>) -> bool {
    exists|e: int| 0 <= e < EFFECT_COUNT && s == effect_name_spec(e)
}

/// How many effects a request for `count` gets: three by default, clamped
/// to between one and five.
pub open spec fn effect_count_spec(count: Option<u64>) -> int {
    match count {
        Option::None => 3,
        Option::Some(c) => if c < 1 {
            1
        } else if c > 5 {
            5
        } else {
            c as int
        },
    }
}

/// Draws a sequence of palette indices at random: as many as the clamped
/// count asks for, each valid, and never the same index twice in a row.
#[verifier::loop_isolation(false)]
pub fn pick_random_effect_indices(count: Option<u64>) -> (r: Vec<usize>)
    ensures
        r@.len() == effect_count_spec(count),
        forall|j: int| 0 <= j < r@.len() ==> (#[trigger] r@[j]) < EFFECT_COUNT,
        forall|j: int| 1 <= j < r@.len() ==> (#[trigger] r@[j]) != r@[j - 1],
{
    let n: usize = match count {
        None => 3,
        Some(c) => {
            if c < 1 {
                1
            } else if c > 5 {
                5
            } else {
                c as usize
            }
        },
    };
    let mut out: Vec<usize> = Vec::new();
    let mut k: usize = 0;
    while k < n
        invariant
            k <= n,
            out@.len() == k,
            forall|j: int| 0 <= j < k ==> (#[trigger] out@[j]) < EFFECT_COUNT,
            forall|j: int| 1 <= j < k ==> (#[trigger] out@[j]) != out@[j - 1],
        decreases n - k,
    {
        let idx: usize = if k == 0 {
            random_below(EFFECT_COUNT)
        } else {
            // Drawing from one fewer and shifting past the previous index
            // picks uniformly among the other effects, so neighbours always
            // differ.
            let prev = out[k - 1];
            let d = random_below(EFFECT_COUNT - 1);
            if d >= prev {
                d + 1
            } else {
                d
            }
        };
        out.push(idx);
        k += 1;
    }
    out
}

/// Picks the names of between one and five random effects, never the same
/// effect twice in a row.
pub fn pick_random_effects(count: Option<u64>) -> (r: Vec<String>)
    ensures
        r@.len() == effect_count_spec(count),
        forall|j: int| 0 <= j < r@.len() ==> is_effect_name((#[trigger] r@[j])@),
        forall|j: int| 1 <= j < r@.len() ==> (#[trigger] r@[j])@ != r@[j - 1]@,
{
    let indices = pick_random_effect_indices(count);
    let n = indices.len();
    let mut out: Vec<String> = Vec::new();
    let mut k: usize = 0;
    while k < n
        invariant
            k <= n == indices@.len(),
            out@.len() == k,
            forall|j: int| 0 <= j < n ==> (#[trigger] indices@[j]) < EFFECT_COUNT,
            forall|j: int| 1 <= j < n ==> (#[trigger] indices@[j]) != indices@[j - 1],
            forall|j: int|
                0 <= j < k ==> (#[trigger] out@[j])@ == effect_name_spec(indices@[j] as int),
            forall|j: int| 0 <= j < k ==> is_effect_name((#[trigger] out@[j])@),
            forall|j: int| 1 <= j < k ==> (#[trigger] out@[j])@ != out@[j - 1]@,
        decreases n - k,
    {
        let name = effect_name(indices[k]);
        out.push(name);
        proof {
            let e = indices@[k as int] as int;
            assert(0 <= e < EFFECT_COUNT && out@[k as int]@ == effect_name_spec(e));
            assert(is_effect_name(out@[k as int]@));
            if k > 0 {
                lemma_effect_names_distinct(e, indices@[k as int - 1] as int);
            }
        }
        k += 1;
    }
    out
}

} // verus!
