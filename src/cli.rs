use vstd::prelude::*;

verus! {

/// The settings that the command line gives.
pub struct CliArgs {
    pub server_url: String,
    pub server_password: String,
    pub debug: bool,
}

/// Why a command line is refused.
pub enum ArgError {
    /// An argument that is no known flag.
    UnknownArgument(String),
    /// No server address was given.
    MissingServerUrl,
    /// No server password was given.
    MissingServerPassword,
}

pub open spec fn url_flag() -> Seq<char> {
    seq!['-', '-', 's', 'e', 'r', 'v', 'e', 'r', '-', 'u', 'r', 'l']
}

pub open spec fn password_flag() -> Seq<char> {
    seq!['-', '-', 's', 'e', 'r', 'v', 'e', 'r', '-', 'p', 'a', 's', 's', 'w', 'o', 'r', 'd']
}

pub open spec fn debug_flag() -> Seq<char> {
    seq!['-', '-', 'd', 'e', 'b', 'u', 'g']
}

/// What the arguments from position `i` on make of the settings so far
/// (`url`, `password`, `debug`): a flag that takes a value takes the next
/// argument, or nothing where none is left; an unknown argument stops the
/// scan with that argument.
pub open spec fn scan_args(
    args: Seq<Seq<char>>,
    i: int,
    url: Option<Seq<char>>,
    password: Option<Seq<char>>,
    debug: bool,
) -> Result<(Option<Seq<char>>, Option<Seq<char>>, bool), Seq<char>>
    decreases args.len() - i,
{
    if i < 0 || i >= args.len() {
        Ok((url, password, debug))
    } else {
        let (next, after) = if i + 1 < args.len() {
            (Some(args[i + 1]), i + 2)
        } else {
            (None, i + 1)
        };
        if args[i] == url_flag() {
            scan_args(args, after, next, password, debug)
        } else if args[i] == password_flag() {
            scan_args(args, after, url, next, debug)
        } else if args[i] == debug_flag() {
            scan_args(args, i + 1, url, password, true)
        } else {
            Err(args[i])
        }
    }
}

pub open spec fn opt_view(o: Option<String>) -> Option<Seq<char>> {
    match o {
        Some(s) => Some(s@),
        None => None,
    }
}

pub(crate) fn str_eq(a: &str, b: &str) -> (r: bool)
    ensures
        r == (a@ == b@),
{
    let n = a.unicode_len();
    if n != b.unicode_len() {
        return false;
    }
    let mut i: usize = 0;
    while i < n
        invariant
            n == a@.len() == b@.len(),
            i <= n,
            forall|j: int| 0 <= j < i ==> a@[j] == b@[j],
        decreases n - i,
    {
        if a.get_char(i) != b.get_char(i) {
            return false;
        }
        i += 1;
    }
    assert(a@ =~= b@);
    true
}

/// Reads the command line (without the program name): `--server-url` and
/// `--server-password` each take the next argument, `--debug` stands alone.
/// Fails on the first unknown argument, then on a missing address, then on a
/// missing password.
pub fn parse_args(args: &Vec<String>) -> (r: Result<CliArgs, ArgError>)
    ensures
        match scan_args(args@.map_values(|a: String| a@), 0, None, None, false) {
            Err(a) => match r {
                Err(ArgError::UnknownArgument(s)) => s@ == a,
                _ => false,
            },
            Ok((None, _, _)) => r is Err && r->Err_0 is MissingServerUrl,
            Ok((Some(_), None, _)) => r is Err && r->Err_0 is MissingServerPassword,
            Ok((Some(u), Some(p), d)) => match r {
                Ok(c) => c.server_url@ == u && c.server_password@ == p && c.debug == d,
                Err(_) => false,
            },
        },
{
    let ghost views = args@.map_values(|a: String| a@);
    proof {
        reveal_strlit("--server-url");
        reveal_strlit("--server-password");
        reveal_strlit("--debug");
        assert("--server-url"@ =~= url_flag());
        assert("--server-password"@ =~= password_flag());
        assert("--debug"@ =~= debug_flag());
    }
    let n = args.len();
    let mut url: Option<String> = None;
    let mut password: Option<String> = None;
    let mut debug = false;
    let mut i: usize = 0;
    while i < n
        invariant
            n == args@.len() == views.len(),
            "--server-url"@ == url_flag(),
            "--server-password"@ == password_flag(),
            "--debug"@ == debug_flag(),
            views == args@.map_values(|a: String| a@),
            i <= n,
            scan_args(views, 0, None, None, false) == scan_args(
                views,
                i as int,
                opt_view(url),
                opt_view(password),
                debug,
            ),
        decreases n - i,
    {
        let a = args[i].as_str();
        assert(views[i as int] == a@);
        if i + 1 < n {
            assert(views[i + 1] == args@[i + 1]@);
        }
        let next: Option<String> = if i + 1 < n {
            Some(args[i + 1].clone())
        } else {
            None
        };
        let step: usize = if i + 1 < n {
            2
        } else {
            1
        };
        if str_eq(a, "--server-url") {
            url = next;
            i = i + step;
        } else if str_eq(a, "--server-password") {
            password = next;
            i = i + step;
        } else if str_eq(a, "--debug") {
            debug = true;
            i = i + 1;
        } else {
            return Err(ArgError::UnknownArgument(args[i].clone()));
        }
    }
    match (url, password) {
        (None, _) => Err(ArgError::MissingServerUrl),
        (Some(_), None) => Err(ArgError::MissingServerPassword),
        (Some(u), Some(p)) => Ok(CliArgs { server_url: u, server_password: p, debug }),
    }
}

} // verus!
