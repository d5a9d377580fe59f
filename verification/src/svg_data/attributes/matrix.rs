//! The `transform` attribute, reduced to a single affine matrix.

use vstd::prelude::*;

use crate::errors::SvgError;
use crate::number::fits_fixed;
use crate::number::fixed_of;
use crate::number::fixed_str;
use crate::number::parse_fixed;
use crate::number::print_fixed;
use crate::text::chars_of;
use crate::text::string_from_chars;

verus! {

/// One 2x3 affine matrix; the six entries are scaled by `10^8`
/// (see [`crate::number`]).
#[derive(Debug, Clone, Copy, PartialEq, Eq, Structural)]
pub struct MatrixValue {
    pub a: i64,
    pub b: i64,
    pub c: i64,
    pub d: i64,
    pub e: i64,
    pub f: i64,
}

/// Whether the outside transform parser accepts a transform list.
/// Acceptance is decided by the grammar alone, so it is a function of the
/// input string.  (The *entries* of the composed matrix are not named: for
/// `rotate`, `skewX` and `skewY` they pass through floating-point
/// trigonometry whose precision the platform does not pin down.)
pub uninterp spec fn transform_accepted(s: Seq<char>) -> bool;

/// Relies on `svgtypes::Transform::from_str`: parses an SVG transform list
/// and composes it into a single affine matrix.  The six entries are
/// rendered with eight fractional digits; nothing more is assumed of their
/// values, since the composition uses floating-point trigonometry.
#[verifier::external_body]
fn transform_decimals(s: &str) -> (r: Option<Vec<String>>)
    ensures
        r is Some <==> transform_accepted(s@),
        r is Some ==> r->0@.len() == 6,
{
    match <svgtypes::Transform as std::str::FromStr>::from_str(s) {
        Ok(t) => Some(vec![
            format!("{:.8}", t.a),
            format!("{:.8}", t.b),
            format!("{:.8}", t.c),
            format!("{:.8}", t.d),
            format!("{:.8}", t.e),
            format!("{:.8}", t.f),
        ]),
        Err(_) => None,
    }
}

/// Every entry is storable (so the matrix can be printed back).
pub open spec fn matrix_wf(m: MatrixValue) -> bool {
    &&& fits_fixed(m.a as int)
    &&& fits_fixed(m.b as int)
    &&& fits_fixed(m.c as int)
    &&& fits_fixed(m.d as int)
    &&& fits_fixed(m.e as int)
    &&& fits_fixed(m.f as int)
}

/// The canonical serialisation `matrix(a,b,c,d,e,f)`.
pub open spec fn matrix_str(m: MatrixValue) -> Seq<char> {
    "matrix("@ + fixed_str(m.a as int) + ","@ + fixed_str(m.b as int) + ","@ + fixed_str(
        m.c as int,
    ) + ","@ + fixed_str(m.d as int) + ","@ + fixed_str(m.e as int) + ","@ + fixed_str(m.f as int)
        + ")"@
}

impl MatrixValue {
    /// Parses a transform list.  Fails with `AttributeParse` whenever the
    /// outside parser rejects the list, and also when a composed entry does
    /// not fit the scaled range; a rejected list never parses.
    pub fn from_string(input: &str) -> (r: Result<MatrixValue, SvgError>)
        ensures
            r is Ok ==> transform_accepted(input@) && matrix_wf(r->Ok_0),
            !transform_accepted(input@) ==> r == Result::<MatrixValue, SvgError>::Err(
                SvgError::AttributeParse,
            ),
            r is Err ==> r->Err_0 == SvgError::AttributeParse,
    {
        let ds = match transform_decimals(input) {
            Some(ds) => ds,
            None => {
                return Err(SvgError::AttributeParse);
            },
        };
        let mut vals: Vec<i64> = Vec::new();
        let mut i: usize = 0;
        while i < 6
            invariant
                i <= 6,
                ds@.len() == 6,
                vals@.len() == i,
                forall|k: int| 0 <= k < i ==> fits_fixed((#[trigger] vals@[k]) as int),
            decreases 6 - i,
        {
            let cs = chars_of(ds[i].as_str());
            match parse_fixed(&cs) {
                Some(x) => {
                    vals.push(x);
                },
                None => {
                    return Err(SvgError::AttributeParse);
                },
            }
            i = i + 1;
        }
        Ok(MatrixValue { a: vals[0], b: vals[1], c: vals[2], d: vals[3], e: vals[4], f: vals[5] })
    }

    /// The canonical serialisation `matrix(a,b,c,d,e,f)`.
    pub fn to_string(&self) -> (r: String)
        requires
            matrix_wf(*self),
        ensures
            r@ == matrix_str(*self),
    {
        let mut s = String::new();
        s.push_str("matrix(");
        let av = print_fixed(self.a);
        s.push_str(string_from_chars(&av).as_str());
        s.push_str(",");
        let bv = print_fixed(self.b);
        s.push_str(string_from_chars(&bv).as_str());
        s.push_str(",");
        let cv = print_fixed(self.c);
        s.push_str(string_from_chars(&cv).as_str());
        s.push_str(",");
        let dv = print_fixed(self.d);
        s.push_str(string_from_chars(&dv).as_str());
        s.push_str(",");
        let ev = print_fixed(self.e);
        s.push_str(string_from_chars(&ev).as_str());
        s.push_str(",");
        let fv = print_fixed(self.f);
        s.push_str(string_from_chars(&fv).as_str());
        s.push_str(")");
        proof {
            assert(s@ =~= matrix_str(*self));
        }
        s
    }
}

} // verus!
