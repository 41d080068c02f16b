//! Verified text building: decimal rendering, padding and joining, the
//! pieces the engine's log lines are made of.

use vstd::prelude::*;
use vstd::string::{StrSliceExecFns, StringExecFns};

use crate::record::names_view;

verus! {

/// The decimal digit character for `d`.
pub open spec fn digit_char(d: int) -> char {
    if d == 0 {
        '0'
    } else if d == 1 {
        '1'
    } else if d == 2 {
        '2'
    } else if d == 3 {
        '3'
    } else if d == 4 {
        '4'
    } else if d == 5 {
        '5'
    } else if d == 6 {
        '6'
    } else if d == 7 {
        '7'
    } else if d == 8 {
        '8'
    } else {
        '9'
    }
}

/// The decimal rendering of `n`, most significant digit first.
pub open spec fn dec_of(n: nat) -> Seq<char>
    decreases n,
{
    if n < 10 {
        seq![digit_char(n as int)]
    } else {
        dec_of(n / 10).push(digit_char((n % 10) as int))
    }
}

/// Renders `n` in decimal.
pub fn dec_string(n: u128) -> (s: String)
    ensures
        s@ == dec_of(n as nat),
    decreases n,
{
    let d: u128 = n % 10;
    let digit: &str = if d == 0 {
        "0"
    } else if d == 1 {
        "1"
    } else if d == 2 {
        "2"
    } else if d == 3 {
        "3"
    } else if d == 4 {
        "4"
    } else if d == 5 {
        "5"
    } else if d == 6 {
        "6"
    } else if d == 7 {
        "7"
    } else if d == 8 {
        "8"
    } else {
        "9"
    };
    proof {
        reveal_strlit("0");
        reveal_strlit("1");
        reveal_strlit("2");
        reveal_strlit("3");
        reveal_strlit("4");
        reveal_strlit("5");
        reveal_strlit("6");
        reveal_strlit("7");
        reveal_strlit("8");
        reveal_strlit("9");
        assert(digit@ =~= seq![digit_char(d as int)]);
    }
    if n < 10 {
        digit.to_owned()
    } else {
        let mut s = dec_string(n / 10);
        s.append(digit);
        proof {
            assert(s@ =~= dec_of(n as nat));
        }
        s
    }
}

/// `n` spaces.
pub open spec fn spaces(n: nat) -> Seq<char> {
    Seq::new(n, |i: int| ' ')
}

/// `s` padded on the right with spaces to at least `width` characters.
pub open spec fn pad_to(s: Seq<char>, width: nat) -> Seq<char> {
    if s.len() >= width {
        s
    } else {
        s + spaces((width - s.len()) as nat)
    }
}

/// Pads `s` on the right with spaces to at least `width` characters.
#[verifier::loop_isolation(false)]
pub fn padded(s: &str, width: usize) -> (r: String)
    ensures
        r@ == pad_to(s@, width as nat),
{
    let mut r = s.to_owned();
    let mut len = s.unicode_len();
    proof {
        reveal_strlit(" ");
        assert(r@ =~= s@ + spaces((len - s@.len()) as nat));
    }
    while len < width
        invariant
            s@.len() <= len,
            len <= width || len == s@.len(),
            r@ == s@ + spaces((len - s@.len()) as nat),
        decreases width - len,
    {
        r.append(" ");
        proof {
            assert(r@ =~= s@ + spaces((len + 1 - s@.len()) as nat));
        }
        len += 1;
    }
    proof {
        if s@.len() >= width as nat {
            assert(r@ =~= s@);
        }
    }
    r
}

/// Copies a list of names.
pub fn clone_names(v: &Vec<String>) -> (r: Vec<String>)
    ensures
        r@ == v@,
{
    let mut r: Vec<String> = Vec::new();
    let mut i: usize = 0;
    while i < v.len()
        invariant
            0 <= i <= v@.len(),
            r@ == v@.take(i as int),
        decreases v@.len() - i,
    {
        r.push(v[i].clone());
        assert(r@ =~= v@.take(i as int + 1));
        i += 1;
    }
    assert(r@ =~= v@);
    r
}

/// The comma-joined form of a name list.
pub open spec fn join_names(names: Seq<Seq<char>>) -> Seq<char>
    decreases names.len(),
{
    if names.len() == 0 {
        Seq::empty()
    } else if names.len() == 1 {
        names[0]
    } else {
        join_names(names.drop_last()) + ","@ + names.last()
    }
}

/// The display form of a name list: comma-joined, or `-` when empty.
pub open spec fn display_names(names: Seq<Seq<char>>) -> Seq<char> {
    if names.len() == 0 {
        "-"@
    } else {
        join_names(names)
    }
}

/// Joins names with commas, writing `-` for an empty list.
#[verifier::loop_isolation(false)]
pub fn join_or_dash(names: &Vec<String>) -> (r: String)
    ensures
        r@ == display_names(names_view(names@)),
{
    let ghost nv = names_view(names@);
    if names.len() == 0 {
        return "-".to_owned();
    }
    let mut r = names[0].clone();
    proof {
        assert(nv.take(1)[0] == nv[0]);
        assert(r@ == join_names(nv.take(1)));
    }
    let mut i: usize = 1;
    while i < names.len()
        invariant
            1 <= i <= names@.len(),
            r@ == join_names(nv.take(i as int)),
        decreases names@.len() - i,
    {
        r.append(",");
        r.append(names[i].as_str());
        proof {
            let i0 = i as int;
            assert(nv.take(i0 + 1).drop_last() =~= nv.take(i0));
            assert(nv.take(i0 + 1).last() == nv[i0]);
            assert(r@ =~= join_names(nv.take(i0)) + ","@ + nv[i0]);
        }
        i += 1;
    }
    proof {
        assert(nv.take(nv.len() as int) =~= nv);
    }
    r
}

} // verus!
