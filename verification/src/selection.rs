//! The export selection.
//!
//! An export request names a set of power-of-two target sizes drawn from
//! 16..512, the axes the sizes apply to, the resampling filter, the output
//! format tag, and whether one image or a whole directory is exported.  The
//! user interface hands the choice over as a fixed-order vector of ten
//! booleans; [`Config::from_flags`] validates it into this named structure.

use vstd::prelude::*;
use vstd::string::StringExecFns;

verus! {

/// The axis a resize target is controlled by.
#[derive(Clone, Copy, PartialEq, Eq, Structural, Debug)]
pub enum Axis {
    Width,
    Height,
}

/// A validated export selection.
#[derive(Debug)]
pub struct Config {
    pub x16: bool,
    pub x32: bool,
    pub x64: bool,
    pub x128: bool,
    pub x256: bool,
    pub x512: bool,
    pub w: bool,
    pub h: bool,
    pub nearest: bool,
    pub everything_in_dir: bool,
    pub format: String,
}

/// A singleton of `n` when `enabled`, else empty: one summand of the
/// ascending size list.
pub open spec fn maybe_size(enabled: bool, n: usize) -> Seq<usize> {
    if enabled {
        seq![n]
    } else {
        Seq::empty()
    }
}

impl Config {
    /// The enabled sizes in ascending numeric order.
    pub open spec fn sizes_spec(&self) -> Seq<usize> {
        maybe_size(self.x16, 16) + maybe_size(self.x32, 32) + maybe_size(self.x64, 64)
            + maybe_size(self.x128, 128) + maybe_size(self.x256, 256) + maybe_size(self.x512, 512)
    }

    /// Builds a selection from the fixed-order flag vector
    /// `[16, 32, 64, 128, 256, 512, width, height, nearest, whole-directory]`;
    /// `None` unless exactly ten flags are given.  The format defaults to
    /// `"png"`.
    pub fn from_flags(flags: &Vec<bool>) -> (r: Option<Config>)
        ensures
            match r {
                Some(c) => {
                    &&& flags@.len() == 10
                    &&& c.x16 == flags@[0]
                    &&& c.x32 == flags@[1]
                    &&& c.x64 == flags@[2]
                    &&& c.x128 == flags@[3]
                    &&& c.x256 == flags@[4]
                    &&& c.x512 == flags@[5]
                    &&& c.w == flags@[6]
                    &&& c.h == flags@[7]
                    &&& c.nearest == flags@[8]
                    &&& c.everything_in_dir == flags@[9]
                    &&& c.format@ == "png"@
                },
                None => flags@.len() != 10,
            },
    {
        if flags.len() != 10 {
            return None;
        }
        Some(
            Config {
                x16: flags[0],
                x32: flags[1],
                x64: flags[2],
                x128: flags[3],
                x256: flags[4],
                x512: flags[5],
                w: flags[6],
                h: flags[7],
                nearest: flags[8],
                everything_in_dir: flags[9],
                format: String::from_str("png"),
            },
        )
    }

    /// The enabled sizes, ascending.
    pub fn nums(&self) -> (r: Vec<usize>)
        ensures
            r@ == self.sizes_spec(),
    {
        let mut r: Vec<usize> = Vec::new();
        if self.x16 {
            r.push(16);
        }
        assert(r@ =~= maybe_size(self.x16, 16));
        if self.x32 {
            r.push(32);
        }
        assert(r@ =~= maybe_size(self.x16, 16) + maybe_size(self.x32, 32));
        if self.x64 {
            r.push(64);
        }
        assert(r@ =~= maybe_size(self.x16, 16) + maybe_size(self.x32, 32)
            + maybe_size(self.x64, 64));
        if self.x128 {
            r.push(128);
        }
        assert(r@ =~= maybe_size(self.x16, 16) + maybe_size(self.x32, 32)
            + maybe_size(self.x64, 64) + maybe_size(self.x128, 128));
        if self.x256 {
            r.push(256);
        }
        assert(r@ =~= maybe_size(self.x16, 16) + maybe_size(self.x32, 32)
            + maybe_size(self.x64, 64) + maybe_size(self.x128, 128)
            + maybe_size(self.x256, 256));
        if self.x512 {
            r.push(512);
        }
        assert(r@ =~= self.sizes_spec());
        r
    }

    /// Whether the 128-pixel size is enabled.
    pub fn x128_enabled(&self) -> (r: bool)
        ensures
            r == self.x128,
    {
        self.x128
    }
}

} // verus!
