//! The listing configuration and the command-line tokens that build it.

use vstd::prelude::*;

verus! {

/// Which entries of a directory are printed.
#[derive(Debug, Clone, Copy)]
pub enum ShowType {
    /// Every entry is printed.
    All,
    /// Only entries that are regular files are printed.
    File,
    /// Only entries that are directories are printed.
    Dir,
}

/// The attribute by which a directory's entries are ordered before printing.
#[derive(Debug, Clone, Copy)]
pub enum SortType {
    /// No reordering: entries keep raw enumeration order.
    Name,
    /// Non-decreasing modification time.
    LastModified,
    /// Non-decreasing creation time.
    Created,
    /// Non-decreasing size in bytes.
    Size,
}

/// The configuration of one listing run. It is built from the command-line
/// tokens before any entry is read and never changes afterwards.
#[derive(Debug)]
pub struct Params {
    /// Print the permission label of each entry.
    pub perms: bool,
    /// Restrict which entries are printed.
    pub show: ShowType,
    /// Print the size in bytes of each entry.
    pub long: bool,
    /// Order entries by this key before printing.
    pub sort: SortType,
    /// Descend into every subdirectory after listing it.
    pub recurse: bool,
    /// The path the listing operates on.
    pub path: String,
}

/// The mathematical value of a [`Params`].
pub struct ParamsV {
    pub perms: bool,
    pub show: ShowType,
    pub long: bool,
    pub sort: SortType,
    pub recurse: bool,
    pub path: Seq<char>,
}

impl View for Params {
    type V = ParamsV;

    open spec fn view(&self) -> ParamsV {
        ParamsV {
            perms: self.perms,
            show: self.show,
            long: self.long,
            sort: self.sort,
            recurse: self.recurse,
            path: self.path@,
        }
    }
}

/// The configuration before any token has been applied: nothing is printed
/// beyond the names, no filter, no reordering, no recursion, empty path.
pub open spec fn default_params() -> ParamsV {
    ParamsV {
        perms: false,
        show: ShowType::All,
        long: false,
        sort: SortType::Name,
        recurse: false,
        path: Seq::<char>::empty(),
    }
}

impl Params {
    /// The configuration with every option off and an empty path.
    pub fn _new() -> (r: Params)
        ensures
            r@ == default_params(),
    {
        Params {
            perms: false,
            show: ShowType::All,
            long: false,
            sort: SortType::Name,
            recurse: false,
            path: String::new(),
        }
    }
}

/// One token applied to a configuration: the first matching flag takes
/// effect, every other token leaves the configuration unchanged.
pub open spec fn apply_flag(p: ParamsV, tok: Seq<char>) -> ParamsV {
    if tok == "-p"@ {
        ParamsV { perms: true, ..p }
    } else if tok == "-l"@ {
        ParamsV { long: true, ..p }
    } else if tok == "-r"@ {
        ParamsV { recurse: true, ..p }
    } else if tok == "-c"@ {
        ParamsV { sort: SortType::Created, ..p }
    } else if tok == "-m"@ {
        ParamsV { sort: SortType::LastModified, ..p }
    } else if tok == "-s"@ {
        ParamsV { sort: SortType::Size, ..p }
    } else if tok == "-d"@ {
        ParamsV { show: ShowType::Dir, ..p }
    } else if tok == "-f"@ {
        ParamsV { show: ShowType::File, ..p }
    } else {
        p
    }
}

/// All tokens applied in order, so the last matching flag wins.
pub open spec fn apply_flags(p: ParamsV, toks: Seq<Seq<char>>) -> ParamsV
    decreases toks.len(),
{
    if toks.len() == 0 {
        p
    } else {
        apply_flag(apply_flags(p, toks.drop_last()), toks.last())
    }
}

/// The target path taken from the last token: the current directory when
/// there is no token, or when the last token is empty or starts with the
/// flag prefix; the token itself otherwise.
pub open spec fn target_path(toks: Seq<Seq<char>>) -> Seq<char> {
    if toks.len() == 0 {
        "."@
    } else if toks.last().len() == 0 || toks.last()[0] == '-' {
        "."@
    } else {
        toks.last()
    }
}

/// The configuration determined by a full ordered list of command-line
/// tokens (the program name already excluded).
pub open spec fn parse_spec(toks: Seq<Seq<char>>) -> ParamsV {
    apply_flags(ParamsV { path: target_path(toks), ..default_params() }, toks)
}

/// The views of a sequence of strings.
pub open spec fn string_views(s: Seq<String>) -> Seq<Seq<char>> {
    s.map_values(|x: String| x@)
}

/// Builds the configuration from the command-line tokens: the target path
/// comes from the last token, then every token is scanned in order and the
/// recognized flags are applied; unrecognized tokens are ignored.
pub fn parse_args(args: &Vec<String>) -> (r: Params)
    ensures
        r@ == parse_spec(string_views(args@)),
{
    let ghost toks = string_views(args@);
    let mut p = Params::_new();
    if args.len() == 0 {
        p.path = String::from_str(".");
    } else {
        let last: &String = &args[args.len() - 1];
        if last.as_str().unicode_len() == 0 {
            p.path = String::from_str(".");
        } else if last.as_str().get_char(0) == '-' {
            p.path = String::from_str(".");
        } else {
            p.path = last.clone();
        }
    }
    proof {
        assert(p@ == (ParamsV { path: target_path(toks), ..default_params() }));
    }
    let f_p = String::from_str("-p");
    let f_l = String::from_str("-l");
    let f_r = String::from_str("-r");
    let f_c = String::from_str("-c");
    let f_m = String::from_str("-m");
    let f_s = String::from_str("-s");
    let f_d = String::from_str("-d");
    let f_f = String::from_str("-f");
    let mut i: usize = 0;
    while i < args.len()
        invariant
            i <= args.len(),
            toks == string_views(args@),
            toks.len() == args@.len(),
            f_p@ == "-p"@ && f_l@ == "-l"@ && f_r@ == "-r"@ && f_c@ == "-c"@,
            f_m@ == "-m"@ && f_s@ == "-s"@ && f_d@ == "-d"@ && f_f@ == "-f"@,
            p@ == apply_flags(
                ParamsV { path: target_path(toks), ..default_params() },
                toks.take(i as int),
            ),
        decreases args.len() - i,
    {
        let a: &String = &args[i];
        if *a == f_p {
            p.perms = true;
        } else if *a == f_l {
            p.long = true;
        } else if *a == f_r {
            p.recurse = true;
        } else if *a == f_c {
            p.sort = SortType::Created;
        } else if *a == f_m {
            p.sort = SortType::LastModified;
        } else if *a == f_s {
            p.sort = SortType::Size;
        } else if *a == f_d {
            p.show = ShowType::Dir;
        } else if *a == f_f {
            p.show = ShowType::File;
        }
        proof {
            assert(toks.take(i + 1).drop_last() =~= toks.take(i as int));
            assert(toks.take(i + 1).last() == a@);
        }
        i = i + 1;
    }
    proof {
        assert(toks.take(toks.len() as int) =~= toks);
    }
    p
}

} // verus!
