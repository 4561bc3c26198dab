pub mod style;

use vstd::prelude::*;

verus! {

/// The colour scheme named in the configuration file.
#[derive(Clone, Copy, PartialEq, Eq, Structural, Debug)]
pub enum ColorScheme {
    Dark,
    Light,
}

impl Default for ColorScheme {
    fn default() -> (r: Self)
        ensures
            r == ColorScheme::Dark,
    {
        ColorScheme::Dark
    }
}

} // verus!
