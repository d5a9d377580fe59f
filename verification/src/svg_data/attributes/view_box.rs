//! The `viewBox` attribute: four numbers, with a positive width and height.

use vstd::prelude::*;

use crate::errors::SvgError;
use crate::number::fits_fixed;
use crate::number::fixed_of;
use crate::number::fixed_str;
use crate::number::parse_fixed;
use crate::number::print_fixed;
use crate::text::string_from_chars;
use crate::tokens::split_tokens;
use crate::tokens::tokens_of;

verus! {

/// A view box `x y w h`, each entry scaled by `10^8` (see
/// [`crate::number`]).
#[derive(Debug, Clone, Copy, PartialEq, Eq, Structural)]
pub struct ViewBoxValue {
    pub x: i64,
    pub y: i64,
    pub w: i64,
    pub h: i64,
}

/// The first four tokens denote storable numbers, and the third and fourth
/// (width and height) are positive.  Extra tokens are ignored, as the
/// original grammar does.
pub open spec fn view_box_ok(ts: Seq<Seq<char>>) -> bool {
    &&& ts.len() >= 4
    &&& (forall|i: int|
        0 <= i < 4 ==> fixed_of(#[trigger] ts[i]) is Some && fits_fixed(fixed_of(ts[i])->0))
    &&& fixed_of(ts[2])->0 > 0
    &&& fixed_of(ts[3])->0 > 0
}

/// The view box holds exactly the first four tokens' values.
pub open spec fn view_box_matches(ts: Seq<Seq<char>>, v: ViewBoxValue) -> bool {
    &&& fixed_of(ts[0]) == Some(v.x as int)
    &&& fixed_of(ts[1]) == Some(v.y as int)
    &&& fixed_of(ts[2]) == Some(v.w as int)
    &&& fixed_of(ts[3]) == Some(v.h as int)
}

/// Every entry is storable and the size is positive.
pub open spec fn view_box_wf(v: ViewBoxValue) -> bool {
    &&& fits_fixed(v.x as int)
    &&& fits_fixed(v.y as int)
    &&& fits_fixed(v.w as int)
    &&& fits_fixed(v.h as int)
    &&& v.w > 0
    &&& v.h > 0
}

/// The canonical serialisation: the four numbers separated by one space.
pub open spec fn view_box_str(v: ViewBoxValue) -> Seq<char> {
    fixed_str(v.x as int) + " "@ + fixed_str(v.y as int) + " "@ + fixed_str(v.w as int) + " "@
        + fixed_str(v.h as int)
}

impl ViewBoxValue {
    /// Parses a `viewBox` value; fails with `AttributeParse` exactly when
    /// there are fewer than four numbers, one of them is malformed or
    /// unstorable, or the size is not positive.
    pub fn from_string(s: &Vec<char>) -> (r: Result<ViewBoxValue, SvgError>)
        ensures
            match r {
                Ok(v) => view_box_ok(tokens_of(s@)) && view_box_matches(tokens_of(s@), v)
                    && view_box_wf(v),
                Err(e) => e == SvgError::AttributeParse && !view_box_ok(tokens_of(s@)),
            },
    {
        let ts = split_tokens(s);
        let ghost tsv = tokens_of(s@);
        proof {
            assert(ts@.len() == tsv.len());
        }
        if ts.len() < 4 {
            return Err(SvgError::AttributeParse);
        }
        let mut vals: Vec<i64> = Vec::new();
        let mut i: usize = 0;
        while i < 4
            invariant
                i <= 4,
                ts@.len() >= 4,
                tsv == tokens_of(s@),
                ts@.map_values(|t: Vec<char>| t@) == tsv,
                vals@.len() == i,
                forall|k: int|
                    0 <= k < i ==> fixed_of(tsv[k]) == Some((#[trigger] vals@[k]) as int)
                        && fits_fixed(vals@[k] as int),
            decreases 4 - i,
        {
            proof {
                assert(tsv[i as int] == ts@.map_values(|t: Vec<char>| t@)[i as int]);
            }
            match parse_fixed(&ts[i]) {
                Some(x) => {
                    vals.push(x);
                },
                None => {
                    proof {
                        assert(fixed_of(tsv[i as int]) is None || !fits_fixed(
                            fixed_of(tsv[i as int])->0,
                        ));
                        assert(!view_box_ok(tsv));
                    }
                    return Err(SvgError::AttributeParse);
                },
            }
            i = i + 1;
        }
        if vals[2] <= 0 || vals[3] <= 0 {
            proof {
                assert(!view_box_ok(tsv));
            }
            return Err(SvgError::AttributeParse);
        }
        Ok(ViewBoxValue { x: vals[0], y: vals[1], w: vals[2], h: vals[3] })
    }

    /// The canonical serialisation: the four numbers separated by spaces.
    pub fn to_string(&self) -> (r: String)
        requires
            view_box_wf(*self),
        ensures
            r@ == view_box_str(*self),
    {
        let mut s = String::new();
        let xv = print_fixed(self.x);
        s.push_str(string_from_chars(&xv).as_str());
        s.push_str(" ");
        let yv = print_fixed(self.y);
        s.push_str(string_from_chars(&yv).as_str());
        s.push_str(" ");
        let wv = print_fixed(self.w);
        s.push_str(string_from_chars(&wv).as_str());
        s.push_str(" ");
        let hv = print_fixed(self.h);
        s.push_str(string_from_chars(&hv).as_str());
        proof {
            assert(s@ =~= view_box_str(*self));
        }
        s
    }
}

} // verus!
