//! Output file names.
//!
//! Every exported file is named
//! `{base}_{axis}_x{size}_w{width}_h{height}.{format}`, with `w` or `h` as
//! the axis label; the name encodes the whole target, so the names of one
//! batch never collide.  The name and the joined output path are built
//! here, character for character as the contracts state them.

use vstd::prelude::*;
use vstd::string::StringExecFns;

use crate::pathing::{maybe_add_character, maybe_added};
use crate::planner::{lemma_plan_sorted, plan_before, plan_spec, ResizeTarget};
use crate::selection::{Axis, Config};
use crate::text::{
    dec_digits, is_decimal_digit, lemma_dec_digits_are_digits, lemma_dec_digits_delimited,
    u32_to_string,
};

verus! {

/// The label an axis carries in a file name.
pub open spec fn axis_label(a: Axis) -> Seq<char> {
    match a {
        Axis::Width => "w"@,
        Axis::Height => "h"@,
    }
}

/// The output file name for one target:
/// `{base}_{axis}_x{size}_w{width}_h{height}.{format}`.
pub open spec fn file_name_spec(base: Seq<char>, t: ResizeTarget, format: Seq<char>) -> Seq<char> {
    base + "_"@ + axis_label(t.axis) + "_x"@ + dec_digits(t.target as int) + "_w"@ + dec_digits(
        t.width as int,
    ) + "_h"@ + dec_digits(t.height as int) + "."@ + format
}

/// A file's full output path: the output directory, a separator where one
/// is missing, then the file name.
pub open spec fn joined_path(dir: Seq<char>, name: Seq<char>) -> Seq<char> {
    maybe_added(dir, '/') + name
}

/// Two targets that differ in axis or in requested size never share a file
/// name: the axis label sits right after the base, and the size numeral is
/// delimited by a non-digit, so the name parses in only one way.
pub proof fn lemma_file_names_unique(
    base: Seq<char>,
    t1: ResizeTarget,
    t2: ResizeTarget,
    fmt: Seq<char>,
)
    requires
        t1.axis != t2.axis || t1.target != t2.target,
    ensures
        file_name_spec(base, t1, fmt) != file_name_spec(base, t2, fmt),
{
    reveal_strlit("_");
    reveal_strlit("w");
    reveal_strlit("h");
    reveal_strlit("_x");
    reveal_strlit("_w");
    let n1 = file_name_spec(base, t1, fmt);
    let n2 = file_name_spec(base, t2, fmt);
    lemma_dec_digits_are_digits(t1.target as int);
    lemma_dec_digits_are_digits(t2.target as int);
    if n1 == n2 {
        if t1.axis != t2.axis {
            let idx = base.len() as int + 1;
            assert(("_"@).len() == 1);
            assert(axis_label(t1.axis).len() == 1 && axis_label(t2.axis).len() == 1);
            assert((base + "_"@ + axis_label(t1.axis))[idx] == axis_label(t1.axis)[0]);
            assert((base + "_"@ + axis_label(t2.axis))[idx] == axis_label(t2.axis)[0]);
            assert(n1[idx] == axis_label(t1.axis)[0]);
            assert(n2[idx] == axis_label(t2.axis)[0]);
            assert(axis_label(t1.axis)[0] != axis_label(t2.axis)[0]);
            assert(false);
        } else {
            let pre = base + "_"@ + axis_label(t1.axis) + "_x"@;
            let rest1 = "_w"@ + dec_digits(t1.width as int) + "_h"@ + dec_digits(
                t1.height as int,
            ) + "."@ + fmt;
            let rest2 = "_w"@ + dec_digits(t2.width as int) + "_h"@ + dec_digits(
                t2.height as int,
            ) + "."@ + fmt;
            assert(n1 =~= pre + (dec_digits(t1.target as int) + rest1));
            assert(n2 =~= pre + (dec_digits(t2.target as int) + rest2));
            let suf1 = dec_digits(t1.target as int) + rest1;
            let suf2 = dec_digits(t2.target as int) + rest2;
            assert(suf1 =~= (pre + suf1).skip(pre.len() as int));
            assert(suf2 =~= (pre + suf2).skip(pre.len() as int));
            assert(suf1 == suf2);
            assert(("_w"@).len() == 2);
            assert(rest1[0] == '_' && rest2[0] == '_');
            assert(!is_decimal_digit('_'));
            lemma_dec_digits_delimited(t1.target as int, t2.target as int, rest1, rest2);
            assert(false);
        }
    }
}

/// No two targets of one plan are written to the same path: the plan is
/// ordered by axis and size, the name encodes both, and the two files go
/// into the same directory.
pub proof fn lemma_plan_paths_unique(
    w: u32,
    h: u32,
    c: Config,
    dir: Seq<char>,
    base: Seq<char>,
    fmt: Seq<char>,
    i: int,
    j: int,
)
    requires
        0 <= i < j < plan_spec(w, h, c).len(),
    ensures
        joined_path(dir, file_name_spec(base, plan_spec(w, h, c)[i], fmt)) != joined_path(
            dir,
            file_name_spec(base, plan_spec(w, h, c)[j], fmt),
        ),
{
    lemma_plan_sorted(w, h, c);
    let t1 = plan_spec(w, h, c)[i];
    let t2 = plan_spec(w, h, c)[j];
    assert(plan_before(t1, t2));
    lemma_file_names_unique(base, t1, t2, fmt);
    let d = maybe_added(dir, '/');
    let name1 = file_name_spec(base, t1, fmt);
    let name2 = file_name_spec(base, t2, fmt);
    if joined_path(dir, name1) == joined_path(dir, name2) {
        assert(name1 =~= (d + name1).skip(d.len() as int));
        assert(name2 =~= (d + name2).skip(d.len() as int));
        assert(false);
    }
}

/// Builds the output file name for one target.
pub fn build_file_name(base: &str, t: &ResizeTarget, format: &str) -> (r: String)
    ensures
        r@ == file_name_spec(base@, *t, format@),
{
    let mut s = String::from_str(base);
    s.append("_");
    match t.axis {
        Axis::Width => s.append("w"),
        Axis::Height => s.append("h"),
    }
    s.append("_x");
    let target_digits = u32_to_string(t.target);
    s.append(target_digits.as_str());
    s.append("_w");
    let width_digits = u32_to_string(t.width);
    s.append(width_digits.as_str());
    s.append("_h");
    let height_digits = u32_to_string(t.height);
    s.append(height_digits.as_str());
    s.append(".");
    s.append(format);
    proof {
        assert(s@ =~= file_name_spec(base@, *t, format@));
    }
    s
}

/// Joins the output directory and a file name.
pub fn join_path(dir: &str, name: &str) -> (r: String)
    ensures
        r@ == joined_path(dir@, name@),
{
    let mut d = maybe_add_character(dir.to_owned(), '/');
    d.append(name);
    d
}

} // verus!
