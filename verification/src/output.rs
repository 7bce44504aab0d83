//! The fixed text of the PMF output file.
//!
//! Each result block starts with a header naming one coordinate column per
//! dimension and the four numeric columns; a convergence sweep labels each
//! block with its dataset number. The numeric rows themselves hold doubles
//! and are formatted by the front end.

use vstd::prelude::*;

use crate::errors::spec_dec_digits;
use crate::errors::usize_to_string;

verus! {

/// The coordinate labels `coord1    coord2  ..  coordD`.
pub open spec fn spec_coord_labels(d: nat) -> Seq<char>
    decreases d,
{
    if d == 0 {
        Seq::empty()
    } else if d == 1 {
        "coord"@ + spec_dec_digits(1)
    } else {
        spec_coord_labels((d - 1) as nat) + "    "@ + "coord"@ + spec_dec_digits(d)
    }
}

/// The header line of a result block for a `dimens`-dimensional grid
/// (without the line break).
pub open spec fn spec_pmf_header(dimens: nat) -> Seq<char> {
    "#"@ + spec_coord_labels(dimens) + "    Free Energy    +/-    Probability    +/-"@
}

/// The label line preceding result block `index` of a convergence sweep
/// (without the line break).
pub open spec fn spec_dataset_label(index: nat) -> Seq<char> {
    "#Dataset "@ + spec_dec_digits(index)
}

/// Renders the coordinate labels of the header.
fn coord_labels(dimens: usize) -> (r: String)
    ensures
        r@ == spec_coord_labels(dimens as nat),
{
    let mut r = String::new();
    let mut d: usize = 0;
    while d < dimens
        invariant
            d <= dimens,
            r@ == spec_coord_labels(d as nat),
        decreases dimens - d,
    {
        if d > 0 {
            r.append("    ");
        }
        r.append("coord");
        r.append(usize_to_string(d + 1).as_str());
        proof {
            if d == 0 {
                assert(r@ =~= spec_coord_labels(1));
            }
        }
        d = d + 1;
    }
    r
}

/// The header line of a result block.
pub fn pmf_header(dimens: usize) -> (r: String)
    ensures
        r@ == spec_pmf_header(dimens as nat),
{
    let mut r = String::from_str("#");
    r.append(coord_labels(dimens).as_str());
    r.append("    Free Energy    +/-    Probability    +/-");
    r
}

/// The label line of result block `index` of a convergence sweep.
pub fn dataset_label(index: usize) -> (r: String)
    ensures
        r@ == spec_dataset_label(index as nat),
{
    let mut r = String::from_str("#Dataset ");
    r.append(usize_to_string(index).as_str());
    r
}

} // verus!
