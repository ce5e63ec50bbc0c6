//! The command line of the service binary: which command a run asks for, and
//! the options of the two account commands, checked before anything is
//! written.

use vstd::prelude::*;

use crate::text::{concat, str_eq};

verus! {

/// The text Rust's `Debug` formatting gives a string: the string quoted, with
/// the characters it escapes escaped.
pub uninterp spec fn debug_text(s: Seq<char>) -> Seq<char>;

/// `s` as `{:?}` prints it.
#[verifier::external_body]
fn debug_quoted(s: &str) -> (r: String)
    ensures
        r@ == debug_text(s@),
{
    format!("{s:?}")
}

/// What a run of the binary asks for.
#[derive(Debug, PartialEq, Eq)]
pub enum Command {
    /// No argument: serve the API.
    Serve,
    /// `seed-auth` and the options after it.
    SeedAuth(Vec<String>),
    /// `unseed-auth` and the options after it.
    UnseedAuth(Vec<String>),
}

/// The message an unknown command is refused with.
pub open spec fn unknown_command(command: Seq<char>) -> Seq<char> {
    "unknown command "@ + debug_text(command)
        + ": the binary serves the API with no arguments, seeds the demo accounts with `seed-auth`, or removes them again with `unseed-auth`"@
}

/// The command the arguments after the program name ask for.
pub fn parse_command(args: Vec<String>) -> (r: Result<Command, String>)
    ensures
        args@.len() == 0 ==> r == Ok::<Command, String>(Command::Serve),
        args@.len() > 0 && args@[0]@ == "seed-auth"@ ==> (r matches Ok(Command::SeedAuth(rest)) && rest@
            == args@.drop_first()),
        args@.len() > 0 && args@[0]@ == "unseed-auth"@ ==> (r matches Ok(Command::UnseedAuth(rest)) && rest@
            == args@.drop_first()),
        args@.len() > 0 && args@[0]@ != "seed-auth"@ && args@[0]@ != "unseed-auth"@ ==> (r matches Err(m) && m@
            == unknown_command(args@[0]@)),
{
    proof {
        reveal_strlit("seed-auth");
        reveal_strlit("unseed-auth");
        assert("unseed-auth"@.len() != "seed-auth"@.len());
    }
    if args.len() == 0 {
        return Ok(Command::Serve);
    }
    let ghost all = args@;
    let mut rest = args;
    let command = rest.remove(0);
    assert(rest@ =~= all.drop_first());
    if str_eq(command.as_str(), "seed-auth") {
        Ok(Command::SeedAuth(rest))
    } else if str_eq(command.as_str(), "unseed-auth") {
        Ok(Command::UnseedAuth(rest))
    } else {
        let quoted = debug_quoted(command.as_str());
        let message = concat(
            concat("unknown command ", quoted.as_str()).as_str(),
            ": the binary serves the API with no arguments, seeds the demo accounts with `seed-auth`, or removes them again with `unseed-auth`",
        );
        Err(message)
    }
}

/// The account `seed-auth` creates and the grants it records for it.
#[derive(Debug, PartialEq, Eq)]
pub struct SeedRequest {
    pub username: String,
    pub password: String,
    pub grants: Vec<(String, String)>,
}

/// The options `seed-auth` has read so far.
pub struct SeedModel {
    pub username: Option<Seq<char>>,
    pub password: Option<Seq<char>>,
    pub grants: Seq<(Seq<char>, Seq<char>)>,
}

/// `value` split at its first `=`, when it has one.
pub open spec fn split_grant(value: Seq<char>) -> Option<(Seq<char>, Seq<char>)> {
    if value.contains('=') {
        Some(crate::defect::split_first(value, '='))
    } else {
        None
    }
}

/// The roles a project grant may give.
pub open spec fn project_role(role: Seq<char>) -> bool {
    role == "viewer"@ || role == "editor"@ || role == "owner"@
}

/// The `seed-auth` options from position `i` on, read into `acc`: each option
/// is a flag followed by its value, and the first problem is the answer.
pub open spec fn seed_from(args: Seq<Seq<char>>, i: int, acc: SeedModel) -> Result<SeedModel, Seq<char>>
    decreases args.len() - i,
{
    if i < 0 || i >= args.len() {
        Ok(acc)
    } else if i + 1 >= args.len() {
        Err(args[i] + " needs a value"@)
    } else {
        let flag = args[i];
        let value = args[i + 1];
        if flag == "--username"@ {
            seed_from(args, i + 2, SeedModel { username: Some(value), password: acc.password, grants: acc.grants })
        } else if flag == "--password"@ {
            seed_from(args, i + 2, SeedModel { username: acc.username, password: Some(value), grants: acc.grants })
        } else if flag == "--grant"@ {
            match split_grant(value) {
                None => Err("--grant expects <project>=<role>, got "@ + debug_text(value)),
                Some((project, role)) => if project.len() == 0 {
                    Err("--grant names no project: "@ + debug_text(value))
                } else if !project_role(role) {
                    Err("unknown role "@ + debug_text(role) + "; expected viewer, editor or owner"@)
                } else {
                    seed_from(
                        args,
                        i + 2,
                        SeedModel { username: acc.username, password: acc.password, grants: acc.grants.push((project, role)) },
                    )
                },
            }
        } else {
            Err("unknown option "@ + debug_text(flag) + "; expected --username, --password or --grant"@)
        }
    }
}

/// What `seed-auth` makes of its options: the request, or why it is refused.
pub open spec fn seed_outcome(args: Seq<Seq<char>>) -> Result<(Seq<char>, Seq<char>, Seq<(Seq<char>, Seq<char>)>), Seq<char>> {
    match seed_from(args, 0, SeedModel { username: None, password: None, grants: Seq::empty() }) {
        Err(m) => Err(m),
        Ok(acc) => match (acc.username, acc.password) {
            (None, _) => Err("seed-auth needs --username"@),
            (Some(_), None) => Err("seed-auth needs --password"@),
            (Some(u), Some(p)) => Ok((u, p, acc.grants)),
        },
    }
}

/// The texts of the arguments.
pub open spec fn texts(args: Seq<String>) -> Seq<Seq<char>> {
    args.map_values(|s: String| s@)
}

/// The texts of the grant pairs.
pub open spec fn pairs(grants: Seq<(String, String)>) -> Seq<(Seq<char>, Seq<char>)> {
    grants.map_values(|g: (String, String)| (g.0@, g.1@))
}

/// Whether `s` holds `c`.
fn holds(s: &Vec<char>, c: char) -> (r: bool)
    ensures
        r == s@.contains(c),
{
    let mut i: usize = 0;
    while i < s.len()
        invariant
            i <= s.len(),
            forall|k: int| 0 <= k < i ==> s@[k] != c,
        decreases s.len() - i,
    {
        if s[i] == c {
            assert(s@[i as int] == c);
            return true;
        }
        i = i + 1;
    }
    false
}

/// Reads the options of `seed-auth`.
pub fn parse_seed_args(args: &Vec<String>) -> (r: Result<SeedRequest, String>)
    ensures
        match seed_outcome(texts(args@)) {
            Ok((u, p, g)) => r matches Ok(req) && req.username@ == u && req.password@ == p && pairs(req.grants@) == g,
            Err(m) => r matches Err(e) && e@ == m,
        },
{
    proof {
        reveal_strlit("--username");
        reveal_strlit("--password");
        reveal_strlit("--grant");
    }
    let ghost all = texts(args@);
    let mut username: Option<String> = None;
    let mut password: Option<String> = None;
    let mut grants: Vec<(String, String)> = Vec::new();
    let mut i: usize = 0;
    assert(pairs(grants@) =~= Seq::<(Seq<char>, Seq<char>)>::empty());
    while i < args.len()
        invariant
            i <= args.len(),
            all == texts(args@),
            seed_from(all, 0, SeedModel { username: None, password: None, grants: Seq::empty() }) == seed_from(
                all,
                i as int,
                SeedModel {
                    username: match username {
                        Some(s) => Some(s@),
                        None => None,
                    },
                    password: match password {
                        Some(s) => Some(s@),
                        None => None,
                    },
                    grants: pairs(grants@),
                },
            ),
        decreases args.len() - i,
    {
        let flag = &args[i];
        assert(all[i as int] == flag@);
        proof {
            reveal_strlit("--username");
            reveal_strlit("--password");
            reveal_strlit("--grant");
        }
        if i + 1 >= args.len() {
            return Err(concat(flag.as_str(), " needs a value"));
        }
        let value = &args[i + 1];
        assert(all[i + 1] == value@);
        if str_eq(flag.as_str(), "--username") {
            username = Some(value.clone());
        } else if str_eq(flag.as_str(), "--password") {
            password = Some(value.clone());
        } else if str_eq(flag.as_str(), "--grant") {
            let chars = crate::text::chars_of(value.as_str());
            if !holds(&chars, '=') {
                let quoted = debug_quoted(value.as_str());
                return Err(concat("--grant expects <project>=<role>, got ", quoted.as_str()));
            }
            let (project, role) = crate::defect::split_at_first(&chars, '=');
            if project.len() == 0 {
                let quoted = debug_quoted(value.as_str());
                return Err(concat("--grant names no project: ", quoted.as_str()));
            }
            let role_text = crate::text::string_of(&role);
            if !(str_eq(role_text.as_str(), "viewer") || str_eq(role_text.as_str(), "editor") || str_eq(
                role_text.as_str(),
                "owner",
            )) {
                let quoted = debug_quoted(role_text.as_str());
                let mut message = concat("unknown role ", quoted.as_str());
                crate::text::push_str(&mut message, "; expected viewer, editor or owner");
                return Err(message);
            }
            let ghost before = pairs(grants@);
            grants.push((crate::text::string_of(&project), role_text));
            assert(pairs(grants@) =~= before.push((project@, role@)));
        } else {
            let quoted = debug_quoted(flag.as_str());
            let message = concat(
                concat("unknown option ", quoted.as_str()).as_str(),
                "; expected --username, --password or --grant",
            );
            return Err(message);
        }
        i = i + 2;
    }
    match (username, password) {
        (None, _) => Err("seed-auth needs --username".to_owned()),
        (Some(_), None) => Err("seed-auth needs --password".to_owned()),
        (Some(u), Some(p)) => Ok(SeedRequest { username: u, password: p, grants }),
    }
}

/// The account `unseed-auth` forgets and the grants it removes.
#[derive(Debug, PartialEq, Eq)]
pub struct UnseedRequest {
    pub username: String,
    pub grants: Vec<String>,
    pub remove_account: bool,
}

/// The options `unseed-auth` has read so far.
pub struct UnseedModel {
    pub username: Option<Seq<char>>,
    pub grants: Seq<Seq<char>>,
    pub remove_account: bool,
}

/// The `unseed-auth` options from position `i` on, read into `acc`:
/// `--keep-account` stands alone, every other flag takes a value.
pub open spec fn unseed_from(args: Seq<Seq<char>>, i: int, acc: UnseedModel) -> Result<UnseedModel, Seq<char>>
    decreases args.len() - i,
{
    if i < 0 || i >= args.len() {
        Ok(acc)
    } else if args[i] == "--keep-account"@ {
        unseed_from(args, i + 1, UnseedModel { username: acc.username, grants: acc.grants, remove_account: false })
    } else if i + 1 >= args.len() {
        Err(args[i] + " needs a value"@)
    } else {
        let flag = args[i];
        let value = args[i + 1];
        if flag == "--username"@ {
            unseed_from(args, i + 2, UnseedModel { username: Some(value), grants: acc.grants, remove_account: acc.remove_account })
        } else if flag == "--grant"@ {
            if value.len() == 0 {
                Err("--grant names no project"@)
            } else {
                unseed_from(
                    args,
                    i + 2,
                    UnseedModel { username: acc.username, grants: acc.grants.push(value), remove_account: acc.remove_account },
                )
            }
        } else {
            Err("unknown option "@ + debug_text(flag) + "; expected --username, --grant or --keep-account"@)
        }
    }
}

/// What `unseed-auth` makes of its options: the request, or why it is refused.
pub open spec fn unseed_outcome(args: Seq<Seq<char>>) -> Result<(Seq<char>, Seq<Seq<char>>, bool), Seq<char>> {
    match unseed_from(args, 0, UnseedModel { username: None, grants: Seq::empty(), remove_account: true }) {
        Err(m) => Err(m),
        Ok(acc) => match acc.username {
            None => Err("unseed-auth needs --username"@),
            Some(u) => if acc.grants.len() == 0 {
                Err(
                    "unseed-auth needs at least one --grant <project>: it removes only the grants it is told about, never every grant an account holds"@,
                )
            } else {
                Ok((u, acc.grants, acc.remove_account))
            },
        },
    }
}

/// Reads the options of `unseed-auth`.
pub fn parse_unseed_args(args: &Vec<String>) -> (r: Result<UnseedRequest, String>)
    ensures
        match unseed_outcome(texts(args@)) {
            Ok((u, g, keep)) => r matches Ok(req) && req.username@ == u && texts(req.grants@) == g
                && req.remove_account == keep,
            Err(m) => r matches Err(e) && e@ == m,
        },
{
    proof {
        reveal_strlit("--username");
        reveal_strlit("--grant");
        reveal_strlit("--keep-account");
        reveal_strlit("");
    }
    let ghost all = texts(args@);
    let mut username: Option<String> = None;
    let mut grants: Vec<String> = Vec::new();
    let mut remove_account = true;
    let mut i: usize = 0;
    assert(texts(grants@) =~= Seq::<Seq<char>>::empty());
    while i < args.len()
        invariant
            i <= args.len(),
            all == texts(args@),
            unseed_from(all, 0, UnseedModel { username: None, grants: Seq::empty(), remove_account: true })
                == unseed_from(
                all,
                i as int,
                UnseedModel {
                    username: match username {
                        Some(s) => Some(s@),
                        None => None,
                    },
                    grants: texts(grants@),
                    remove_account,
                },
            ),
        decreases args.len() - i,
    {
        let flag = &args[i];
        assert(all[i as int] == flag@);
        proof {
            reveal_strlit("--username");
            reveal_strlit("--grant");
            reveal_strlit("--keep-account");
            reveal_strlit("");
        }
        if str_eq(flag.as_str(), "--keep-account") {
            remove_account = false;
            i = i + 1;
        } else {
            if i + 1 >= args.len() {
                return Err(concat(flag.as_str(), " needs a value"));
            }
            let value = &args[i + 1];
            assert(all[i + 1] == value@);
            if str_eq(flag.as_str(), "--username") {
                username = Some(value.clone());
            } else if str_eq(flag.as_str(), "--grant") {
                if str_eq(value.as_str(), "") {
                    return Err("--grant names no project".to_owned());
                }
                assert(value@.len() != 0) by {
                    if value@.len() == 0 {
                        assert(value@ =~= ""@);
                    }
                }
                let ghost before = texts(grants@);
                grants.push(value.clone());
                assert(texts(grants@) =~= before.push(value@));
            } else {
                let quoted = debug_quoted(flag.as_str());
                let message = concat(
                    concat("unknown option ", quoted.as_str()).as_str(),
                    "; expected --username, --grant or --keep-account",
                );
                return Err(message);
            }
            i = i + 2;
        }
    }
    match username {
        None => Err("unseed-auth needs --username".to_owned()),
        Some(u) => if grants.len() == 0 {
            assert(texts(grants@).len() == 0);
            Err(
                "unseed-auth needs at least one --grant <project>: it removes only the grants it is told about, never every grant an account holds".to_owned(),
            )
        } else {
            Ok(UnseedRequest { username: u, grants, remove_account })
        },
    }
}

} // verus!
