//! The diagnostic dump: every register, then every heap cell, as text.

use vstd::prelude::*;
use crate::ast::Addr;
use crate::store::{HeapCell, Store};

verus! {

/// The character of the decimal digit `d`.
pub open spec fn digit(d: nat) -> char
    recommends
        d < 10,
{
    if d == 0 {
        '0'
    } else if d == 1 {
        '1'
    } else if d == 2 {
        '2'
    } else if d == 3 {
        '3'
    } else if d == 4 {
        '4'
    } else if d == 5 {
        '5'
    } else if d == 6 {
        '6'
    } else if d == 7 {
        '7'
    } else if d == 8 {
        '8'
    } else {
        '9'
    }
}

/// The number `n` in decimal, without leading zeros.
pub open spec fn decimal(n: nat) -> Seq<char>
    decreases n,
{
    if n < 10 {
        seq![digit(n)]
    } else {
        decimal(n / 10).push(digit(n % 10))
    }
}

/// An address as the dump shows it: a heap position is a number, a register
/// is `X` and its index.
pub open spec fn addr_text(a: Addr) -> Seq<char> {
    match a {
        Addr::HeapCell(i) => decimal(i as nat),
        Addr::RegNum(r) => "X"@ + decimal(r as nat),
    }
}

/// A cell as the dump shows it: its tag, and in brackets what it holds.
pub open spec fn cell_text(c: HeapCell) -> Seq<char> {
    match c {
        HeapCell::NamedStr(arity, name) => "NAME("@ + decimal(arity as nat) + ", "@ + name@ + ")"@,
        HeapCell::Ref(target) => "REF("@ + addr_text(target) + ")"@,
        HeapCell::Str(target) => "STR("@ + decimal(target as nat) + ")"@,
    }
}

/// The line of the dump for cell `c` at `index`.
pub open spec fn line_text(prefix: Seq<char>, index: nat, c: HeapCell) -> Seq<char> {
    prefix + decimal(index) + " = "@ + cell_text(c) + "\n"@
}

/// The lines of the dump for the first `n` of `cells`, in index order.
pub open spec fn lines_text(prefix: Seq<char>, cells: Seq<HeapCell>, n: nat) -> Seq<char>
    decreases n,
{
    if n == 0 {
        Seq::empty()
    } else {
        lines_text(prefix, cells, (n - 1) as nat) + line_text(
            prefix,
            (n - 1) as nat,
            cells[n - 1],
        )
    }
}

/// The dump of a store: a line for each register, marked `X`, an empty
/// line, then a line for each heap cell.
pub open spec fn dump_text(st: Store) -> Seq<char> {
    lines_text("X"@, st.registers, st.registers.len()) + "\n"@ + lines_text(
        ""@,
        st.heap,
        st.heap.len(),
    )
}

fn digit_text(d: usize) -> (t: &'static str)
    requires
        d < 10,
    ensures
        t@ == seq![digit(d as nat)],
{
    proof {
        reveal_strlit("0");
        reveal_strlit("1");
        reveal_strlit("2");
        reveal_strlit("3");
        reveal_strlit("4");
        reveal_strlit("5");
        reveal_strlit("6");
        reveal_strlit("7");
        reveal_strlit("8");
        reveal_strlit("9");
    }
    let t = if d == 0 {
        "0"
    } else if d == 1 {
        "1"
    } else if d == 2 {
        "2"
    } else if d == 3 {
        "3"
    } else if d == 4 {
        "4"
    } else if d == 5 {
        "5"
    } else if d == 6 {
        "6"
    } else if d == 7 {
        "7"
    } else if d == 8 {
        "8"
    } else {
        "9"
    };
    assert(t@ =~= seq![digit(d as nat)]);
    t
}

/// Appends `n` in decimal.
pub fn push_decimal(out: &mut String, n: usize)
    ensures
        final(out)@ == old(out)@ + decimal(n as nat),
    decreases n,
{
    if n >= 10 {
        push_decimal(out, n / 10);
    }
    out.append(digit_text(n % 10));
    assert(out@ =~= old(out)@ + decimal(n as nat));
}

/// Appends an address.
pub fn push_addr(out: &mut String, a: Addr)
    ensures
        final(out)@ == old(out)@ + addr_text(a),
{
    match a {
        Addr::HeapCell(i) => {
            push_decimal(out, i);
        },
        Addr::RegNum(r) => {
            out.append("X");
            push_decimal(out, r);
        },
    }
    assert(out@ =~= old(out)@ + addr_text(a));
}

/// Appends a cell.
pub fn push_cell(out: &mut String, c: &HeapCell)
    ensures
        final(out)@ == old(out)@ + cell_text(*c),
{
    match c {
        HeapCell::NamedStr(arity, name) => {
            out.append("NAME(");
            push_decimal(out, *arity);
            out.append(", ");
            out.append(name.as_str());
        },
        HeapCell::Ref(target) => {
            out.append("REF(");
            push_addr(out, *target);
        },
        HeapCell::Str(target) => {
            out.append("STR(");
            push_decimal(out, *target);
        },
    }
    out.append(")");
    assert(out@ =~= old(out)@ + cell_text(*c));
}

/// Appends a line for each of `cells`, in index order.
pub fn push_lines(out: &mut String, prefix: &str, cells: &Vec<HeapCell>)
    ensures
        final(out)@ == old(out)@ + lines_text(prefix@, cells@, cells@.len()),
{
    let mut i: usize = 0;
    assert(out@ =~= old(out)@ + lines_text(prefix@, cells@, 0));
    while i < cells.len()
        invariant
            i <= cells@.len(),
            out@ == old(out)@ + lines_text(prefix@, cells@, i as nat),
        decreases cells@.len() - i,
    {
        let ghost before = out@;
        out.append(prefix);
        push_decimal(out, i);
        out.append(" = ");
        push_cell(out, &cells[i]);
        out.append("\n");
        assert(out@ =~= before + line_text(prefix@, i as nat, cells@[i as int]));
        i += 1;
        assert(out@ =~= old(out)@ + lines_text(prefix@, cells@, i as nat));
    }
}

} // verus!
