//! What is said on the console.

use vstd::prelude::*;
use vstd::string::*;

use crate::config;
use crate::text;

verus! {

/// Whether messages are logged. The view is true where they are suppressed.
pub struct Verbosity {
    quiet: bool,
}

impl View for Verbosity {
    type V = bool;

    closed spec fn view(&self) -> bool {
        self.quiet
    }
}

impl Verbosity {
    /// At first messages are logged.
    pub fn new() -> (verbosity: Verbosity)
        ensures
            !verbosity@,
    {
        Verbosity { quiet: false }
    }
}

/// Whether messages are suppressed.
pub fn is_quiet(verbosity: &Verbosity) -> (yes: bool)
    ensures
        yes == verbosity@,
{
    verbosity.quiet
}

/// Suppresses messages from now on.
pub fn set_quiet(verbosity: &mut Verbosity)
    ensures
        final(verbosity)@,
{
    verbosity.quiet = true;
}

/// The line that a message is logged as.
pub open spec fn info_line(message: Seq<char>) -> Seq<char> {
    "[info] "@ + message
}

/// The line to print for a message, if it is to be logged.
pub fn info(verbosity: &Verbosity, message: &str) -> (line: Option<String>)
    ensures
        line is None <==> verbosity@,
        line matches Some(text) ==> text@ == info_line(message@),
        line matches Some(text) ==> text@ == "[info] "@ + message@,
{
    if is_quiet(verbosity) {
        None
    } else {
        Some(text::concat("[info] ", message))
    }
}

/// The `--github` flag is among the arguments.
pub open spec fn has_github_flag(args: Seq<String>) -> bool {
    exists|i: int| 0 <= i < args.len() && #[trigger] args[i]@ == "--github"@
}

/// Looks for the `--github` flag. With it, messages are suppressed and only a commit message is
/// printed.
pub fn is_github(args: &Vec<String>) -> (yes: bool)
    ensures
        yes == has_github_flag(args@),
        yes <==> exists|i: int| 0 <= i < args@.len() && #[trigger] args@[i]@ == "--github"@,
{
    let flag = "--github".to_owned();
    let mut i: usize = 0;
    while i < args.len()
        invariant
            i <= args@.len(),
            flag@ == "--github"@,
            forall|k: int| 0 <= k < i ==> #[trigger] args@[k]@ != "--github"@,
        decreases args@.len() - i,
    {
        if args[i] == flag {
            return true;
        }
        i += 1;
    }
    false
}

/// The verbosity that the arguments ask for.
pub fn verbosity_for(args: &Vec<String>) -> (verbosity: Verbosity)
    ensures
        verbosity@ == has_github_flag(args@),
        verbosity@ <==> exists|i: int| 0 <= i < args@.len() && #[trigger] args@[i]@ == "--github"@,
{
    let mut verbosity = Verbosity::new();
    if is_github(args) {
        set_quiet(&mut verbosity);
    }
    verbosity
}

/// What the commit message says: the revisions that the code was rebuilt from.
pub open spec fn commit_text() -> Seq<char> {
    "Rebuild protos with proto-build (cosmos-sdk rev: "@ + config::COSMOS_SDK_REV@ + " ibc-go rev: "@
        + config::IBC_REV@ + " wasmd rev: "@ + config::WASMD_REV@ + "))"@
}

/// The commit message.
pub fn commit_message() -> (message: String)
    ensures
        message@ == commit_text(),
{
    let mut message = "Rebuild protos with proto-build (cosmos-sdk rev: ".to_owned();
    message.append(config::COSMOS_SDK_REV);
    message.append(" ibc-go rev: ");
    message.append(config::IBC_REV);
    message.append(" wasmd rev: ");
    message.append(config::WASMD_REV);
    message.append("))");
    message
}

/// The flag counts wherever it stands among the arguments, and nothing but the flag does.
pub proof fn law_flag_counts_anywhere(a: Seq<String>, arg: String, b: Seq<String>)
    ensures
        has_github_flag(a + seq![arg] + b) <==> has_github_flag(a) || arg@ == "--github"@
            || has_github_flag(b),
        !has_github_flag(Seq::empty()),
{
    let whole = a + seq![arg] + b;
    if has_github_flag(whole) {
        let i = choose|i: int| 0 <= i < whole.len() && #[trigger] whole[i]@ == "--github"@;
        if i < a.len() {
            assert(a[i]@ == "--github"@);
        } else if i > a.len() {
            assert(b[i - a.len() - 1]@ == "--github"@);
        }
    }
    if has_github_flag(a) {
        let i = choose|i: int| 0 <= i < a.len() && #[trigger] a[i]@ == "--github"@;
        assert(whole[i]@ == "--github"@);
    }
    if arg@ == "--github"@ {
        assert(whole[a.len() as int]@ == "--github"@);
    }
    if has_github_flag(b) {
        let i = choose|i: int| 0 <= i < b.len() && #[trigger] b[i]@ == "--github"@;
        assert(whole[a.len() + 1 + i]@ == "--github"@);
    }
}

} // verus!
