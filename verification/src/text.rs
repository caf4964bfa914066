//! Text building blocks shared by the resolver, the walker and the emitter:
//! decimal rendering of numeric identifiers, indentation, and the
//! comma-joined variable lists, each as a spec-level text alongside an
//! executable builder proved to produce exactly that text.

use vstd::prelude::*;

verus! {

/// The decimal digit character for `d % 10`'s value when `d < 10`.
pub open spec fn digit_txt(d: u64) -> Seq<char> {
    if d == 0 {
        "0"@
    } else if d == 1 {
        "1"@
    } else if d == 2 {
        "2"@
    } else if d == 3 {
        "3"@
    } else if d == 4 {
        "4"@
    } else if d == 5 {
        "5"@
    } else if d == 6 {
        "6"@
    } else if d == 7 {
        "7"@
    } else if d == 8 {
        "8"@
    } else {
        "9"@
    }
}

/// The base-10 text of `n`, most significant digit first.
pub open spec fn dec_txt(n: u64) -> Seq<char>
    decreases n,
{
    if n < 10 {
        digit_txt(n)
    } else {
        dec_txt(n / 10) + digit_txt(n % 10)
    }
}

/// Appends the base-10 text of `n`.
pub fn push_dec(s: &mut String, n: u64)
    ensures
        final(s)@ == old(s)@ + dec_txt(n),
    decreases n,
{
    if n >= 10 {
        push_dec(s, n / 10);
    }
    let d = n % 10;
    match d {
        0 => s.append("0"),
        1 => s.append("1"),
        2 => s.append("2"),
        3 => s.append("3"),
        4 => s.append("4"),
        5 => s.append("5"),
        6 => s.append("6"),
        7 => s.append("7"),
        8 => s.append("8"),
        _ => s.append("9"),
    }
    proof {
        if n < 10 {
            assert(digit_txt(n) == digit_txt(d));
        } else {
            assert(old(s)@ + dec_txt(n / 10) + digit_txt(d) =~= old(s)@ + dec_txt(n));
        }
    }
}

/// Four spaces of indentation per nesting level.
pub open spec fn indent_txt(depth: nat) -> Seq<char>
    decreases depth,
{
    if depth == 0 {
        Seq::empty()
    } else {
        indent_txt((depth - 1) as nat) + "    "@
    }
}

/// Appends `depth` levels of indentation.
pub fn push_indent(s: &mut String, depth: usize)
    ensures
        final(s)@ == old(s)@ + indent_txt(depth as nat),
{
    let mut i: usize = 0;
    while i < depth
        invariant
            i <= depth,
            s@ == old(s)@ + indent_txt(i as nat),
        decreases depth - i,
    {
        s.append("    ");
        i = i + 1;
        proof {
            assert(old(s)@ + indent_txt((i - 1) as nat) + "    "@ =~= old(s)@ + indent_txt(
                i as nat,
            ));
        }
    }
}

/// One variable reference, `v` followed by the identifier in decimal.
pub open spec fn var_txt(id: u64) -> Seq<char> {
    "v"@ + dec_txt(id)
}

/// Variable references joined by `, `, in declared order.
pub open spec fn vars_txt(vs: Seq<u64>) -> Seq<char>
    decreases vs.len(),
{
    if vs.len() == 0 {
        Seq::empty()
    } else if vs.len() == 1 {
        var_txt(vs[0])
    } else {
        vars_txt(vs.drop_last()) + ", "@ + var_txt(vs.last())
    }
}

/// Appends the `, `-joined references of `vs`, in order.
pub fn push_vars(s: &mut String, vs: &Vec<u64>)
    ensures
        final(s)@ == old(s)@ + vars_txt(vs@),
{
    let mut i: usize = 0;
    while i < vs.len()
        invariant
            i <= vs@.len(),
            s@ == old(s)@ + vars_txt(vs@.take(i as int)),
        decreases vs@.len() - i,
    {
        if i > 0 {
            s.append(", ");
        }
        s.append("v");
        push_dec(s, vs[i]);
        i = i + 1;
        proof {
            let pre = vs@.take(i - 1);
            let cur = vs@.take(i as int);
            assert(cur.drop_last() =~= pre);
            assert(cur.last() == vs@[i - 1]);
            if i == 1 {
                assert(s@ =~= old(s)@ + vars_txt(cur));
            } else {
                assert(s@ =~= old(s)@ + (vars_txt(pre) + ", "@ + var_txt(vs@[i - 1])));
            }
        }
    }
    proof {
        assert(vs@.take(vs@.len() as int) =~= vs@);
    }
}

/// The positional field lines of a record literal: one line per argument,
/// `field_<position>: v<id>,` indented one tab past `tabs`.
pub open spec fn fields_txt(tabs: Seq<char>, args: Seq<u64>) -> Seq<char>
    decreases args.len(),
{
    if args.len() == 0 {
        Seq::empty()
    } else {
        fields_txt(tabs, args.drop_last()) + tabs + "\tfield_"@ + dec_txt(
            (args.len() - 1) as u64,
        ) + ": v"@ + dec_txt(args.last()) + ",\n"@
    }
}

/// Appends the field lines for `args`, in order.
pub fn push_fields(s: &mut String, tabs: &String, args: &Vec<u64>)
    ensures
        final(s)@ == old(s)@ + fields_txt(tabs@, args@),
{
    let mut i: usize = 0;
    while i < args.len()
        invariant
            i <= args@.len(),
            s@ == old(s)@ + fields_txt(tabs@, args@.take(i as int)),
        decreases args@.len() - i,
    {
        s.append(tabs.as_str());
        s.append("\tfield_");
        push_dec(s, i as u64);
        s.append(": v");
        push_dec(s, args[i]);
        s.append(",\n");
        i = i + 1;
        proof {
            let pre = args@.take(i - 1);
            let cur = args@.take(i as int);
            assert(cur.drop_last() =~= pre);
            assert(cur.last() == args@[i - 1]);
            assert(s@ =~= old(s)@ + (fields_txt(tabs@, pre) + tabs@ + "\tfield_"@ + dec_txt(
                (i - 1) as u64,
            ) + ": v"@ + dec_txt(args@[i - 1]) + ",\n"@));
        }
    }
    proof {
        assert(args@.take(args@.len() as int) =~= args@);
    }
}

} // verus!
