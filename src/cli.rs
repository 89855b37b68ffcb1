use vstd::prelude::*;

verus! {

/// The command line: one subcommand.
pub struct Cli {
    pub command: Commands,
}

/// The subcommands.
pub enum Commands {
    /// Bare installs of the named packages; a single argument `-r=PATH`
    /// asks instead for the pinned installs of the manifest at `PATH`.
    Install { packages: Vec<String> },
    Delete { name: String },
    Update { name: String, version: String },
    List,
}

/// The prefix of an install argument that names a requirements manifest.
pub open spec fn requirements_prefix() -> Seq<char> {
    "-r="@
}

/// The manifest path that the arguments of `install` name, if they are the
/// single argument `-r=PATH`.
pub fn requirements_path(packages: &[String]) -> (r: Option<String>)
    ensures
        r is Some <==> (packages@.len() == 1 && packages@[0]@.len() >= 3 && packages@[0]@.take(3)
            == requirements_prefix()),
        r matches Some(p) ==> p@ == packages@[0]@.skip(3),
{
    proof {
        reveal_strlit("-r=");
    }
    if packages.len() != 1 {
        return None;
    }
    let arg = packages[0].as_str();
    let n = arg.unicode_len();
    if n < 3 {
        return None;
    }
    let a = arg.get_char(0);
    let b = arg.get_char(1);
    let c = arg.get_char(2);
    if a == '-' && b == 'r' && c == '=' {
        assert(arg@.take(3) =~= requirements_prefix());
        Some(arg.substring_char(3, n).to_string())
    } else {
        assert(arg@.take(3)[0] == a && arg@.take(3)[1] == b && arg@.take(3)[2] == c);
        None
    }
}

} // verus!
