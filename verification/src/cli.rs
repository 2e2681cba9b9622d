//! The command line of the server program, and the account it creates on
//! first start.

use vstd::prelude::*;
use crate::auth::{scram_user, AuthManager};
use crate::crypto::base64_encode_spec;
use crate::text::{copy_str, str_eq};

verus! {

broadcast use vstd::string::group_string_axioms;

/// What the program is asked to do.
#[derive(Debug)]
pub enum Command {
    /// Add an account to the users file.
    Register { username: String, password: String },
    /// Print the usage.
    Help,
    /// List the accounts of the users file.
    List,
    /// Run the server.
    Serve,
}

/// The password given to accounts registered without one, and to the
/// account created on first start.
pub open spec fn default_password() -> Seq<char> {
    "changeme123"@
}

/// Reads the arguments of the program (its own name first):
/// `register USER [PASS]`, `help`, `list`, or anything else to serve.
pub fn parse_command(args: &Vec<String>) -> (c: Command)
    ensures
        if args.len() >= 3 && args@[1]@ == "register"@ {
            c matches Command::Register { username, password } && username@ == args@[2]@ && password@ == if args.len()
                >= 4 {
                args@[3]@
            } else {
                default_password()
            }
        } else if args.len() >= 2 && args@[1]@ == "help"@ {
            c is Help
        } else if args.len() >= 2 && args@[1]@ == "list"@ {
            c is List
        } else {
            c is Serve
        },
{
    if args.len() >= 3 && str_eq(args[1].as_str(), "register") {
        let password = if args.len() >= 4 {
            copy_str(args[3].as_str())
        } else {
            copy_str("changeme123")
        };
        return Command::Register { username: copy_str(args[2].as_str()), password };
    }
    if args.len() >= 2 && str_eq(args[1].as_str(), "help") {
        return Command::Help;
    }
    if args.len() >= 2 && str_eq(args[1].as_str(), "list") {
        return Command::List;
    }
    Command::Serve
}

/// Creates the account `admin` with the default password when there is
/// no account at all; says whether it did.
pub fn ensure_admin(auth: &mut AuthManager) -> (created: bool)
    requires
        old(auth).wf(),
    ensures
        final(auth).wf(),
        final(auth).pending_view() == old(auth).pending_view(),
        created == (old(auth).users_view().len() == 0),
        created ==> exists|b: Seq<u8>|
            b.len() == 16 && final(auth).users_view() == seq![
                #[trigger] scram_user("admin"@, default_password(), base64_encode_spec(b)),
            ],
        !created ==> final(auth).users_view() == old(auth).users_view(),
{
    let users = auth.list_users();
    if users.len() > 0 {
        return false;
    }
    let ghost us0 = auth.users_view();
    proof {
        assert(crate::auth::user_index_from(us0, "admin"@, 0) is None);
    }
    let _ = auth.register_user("admin", "changeme123");
    proof {
        let b = choose|b: Seq<u8>|
            b.len() == 16 && auth.users_view() == us0.push(
                #[trigger] scram_user("admin"@, "changeme123"@, base64_encode_spec(b)),
            );
        assert(auth.users_view() =~= seq![scram_user("admin"@, default_password(), base64_encode_spec(b))]);
    }
    true
}

} // verus!
