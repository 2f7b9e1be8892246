//! The command line client: the command it sends for its arguments.
use vstd::prelude::*;
use vstd::string::*;

verus! {

/// The command for the arguments `args` (the program name first): the verb,
/// followed by a space and the service name when one is given.
pub open spec fn command_text(args: Seq<Seq<char>>) -> Seq<char> {
    if args.len() > 2 {
        args[1] + " "@ + args[2]
    } else {
        args[1]
    }
}

/// The command to send for `args`, or `None` when they hold other than
/// one or two arguments after the program name.
pub fn compose_command(args: &Vec<String>) -> (r: Option<String>)
    ensures
        r is None <==> (args@.len() < 2 || args@.len() > 3),
        r matches Some(c) ==> c@ == command_text(args.deep_view()),
{
    if args.len() < 2 || args.len() > 3 {
        return None;
    }
    let mut cmd = String::new();
    cmd.append(args[1].as_str());
    if args.len() > 2 {
        cmd.append(" ");
        cmd.append(args[2].as_str());
    }
    proof {
        assert(args.deep_view()[1] == args@[1]@);
        if args@.len() > 2 {
            assert(args.deep_view()[2] == args@[2]@);
        }
    }
    Some(cmd)
}

} // verus!
