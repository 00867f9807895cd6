//! Rendering one entry as a display line.

use vstd::prelude::*;
use crate::config::{Params, ParamsV, SortType};
use crate::entry::{Entry, EntryV};

verus! {

/// The character for one decimal digit.
pub open spec fn digit_char(d: nat) -> char {
    if d == 0 {
        '0'
    } else if d == 1 {
        '1'
    } else if d == 2 {
        '2'
    } else if d == 3 {
        '3'
    } else if d == 4 {
        '4'
    } else if d == 5 {
        '5'
    } else if d == 6 {
        '6'
    } else if d == 7 {
        '7'
    } else if d == 8 {
        '8'
    } else {
        '9'
    }
}

/// The decimal rendering of a number, most significant digit first, with no
/// leading zero except on the number zero itself.
pub open spec fn dec_str(n: nat) -> Seq<char>
    decreases n,
{
    if n < 10 {
        seq![digit_char(n)]
    } else {
        dec_str(n / 10).push(digit_char(n % 10))
    }
}

fn digit_str(d: u64) -> (r: &'static str)
    requires
        d < 10,
    ensures
        r@ == seq![digit_char(d as nat)],
{
    proof {
        reveal_strlit("0");
        reveal_strlit("1");
        reveal_strlit("2");
        reveal_strlit("3");
        reveal_strlit("4");
        reveal_strlit("5");
        reveal_strlit("6");
        reveal_strlit("7");
        reveal_strlit("8");
        reveal_strlit("9");
    }
    let r = if d == 0 {
        "0"
    } else if d == 1 {
        "1"
    } else if d == 2 {
        "2"
    } else if d == 3 {
        "3"
    } else if d == 4 {
        "4"
    } else if d == 5 {
        "5"
    } else if d == 6 {
        "6"
    } else if d == 7 {
        "7"
    } else if d == 8 {
        "8"
    } else {
        "9"
    };
    proof {
        assert(r@ =~= seq![digit_char(d as nat)]);
    }
    r
}

/// Renders a number as decimal text.
pub fn u64_to_string(n: u64) -> (r: String)
    ensures
        r@ == dec_str(n as nat),
    decreases n,
{
    if n < 10 {
        let mut s = String::new();
        s.append(digit_str(n));
        proof {
            assert(s@ =~= dec_str(n as nat));
        }
        s
    } else {
        let mut s = u64_to_string(n / 10);
        s.append(digit_str(n % 10));
        proof {
            assert((n / 10) as nat == n as nat / 10);
            assert((n % 10) as nat == n as nat % 10);
            assert(s@ =~= dec_str(n as nat));
        }
        s
    }
}

/// The label printed for an entry's permissions: only the readonly bit is
/// classified.
pub open spec fn perm_label(readonly: bool) -> Seq<char> {
    if readonly {
        "Readonly"@
    } else {
        "Writeable"@
    }
}

/// Classifies an entry's readonly bit: a label for a readonly entry,
/// nothing for a writeable one.
pub fn parse_permissions(readonly: bool) -> (r: Option<String>)
    ensures
        readonly ==> (r matches Some(s) && s@ == "Readonly"@),
        !readonly ==> r is None,
{
    if readonly {
        Some(String::from_str("Readonly"))
    } else {
        None
    }
}

/// The display line of one entry under a configuration: always the name;
/// the permission label when permissions are shown; the size in bytes when
/// the long form is on; the sorting timestamp when the sort key is a
/// timestamp; each added segment preceded by a tab.
pub open spec fn line_spec(e: EntryV, p: ParamsV) -> Seq<char> {
    e.name + (if p.perms {
        "\t"@ + perm_label(e.readonly)
    } else {
        Seq::<char>::empty()
    }) + (if p.long {
        "\t"@ + dec_str(e.size as nat)
    } else {
        Seq::<char>::empty()
    }) + (match p.sort {
        SortType::LastModified => "\t"@ + dec_str(e.modified as nat),
        SortType::Created => "\t"@ + dec_str(e.created as nat),
        _ => Seq::<char>::empty(),
    })
}

/// Renders one entry as its display line under the configuration.
pub fn format_entry(e: &Entry, p: &Params) -> (r: String)
    ensures
        r@ == line_spec(e@, p@),
{
    let mut out = String::new();
    out.append(e.name.as_str());
    if p.perms {
        out.append("\t");
        match parse_permissions(e.readonly) {
            Some(label) => out.append(label.as_str()),
            None => out.append("Writeable"),
        }
    }
    if p.long {
        out.append("\t");
        let size_text = u64_to_string(e.size);
        out.append(size_text.as_str());
    }
    match p.sort {
        SortType::LastModified => {
            out.append("\t");
            let time_text = u64_to_string(e.modified);
            out.append(time_text.as_str());
        },
        SortType::Created => {
            out.append("\t");
            let time_text = u64_to_string(e.created);
            out.append(time_text.as_str());
        },
        _ => {},
    }
    proof {
        assert(out@ =~= line_spec(e@, p@));
    }
    out
}

} // verus!
