use vstd::prelude::*;
use owo_colors::OwoColorize;

verus! {

/// The character sequence a name is rendered as, depending on its
/// classification: repositories are wrapped in the ANSI "green foreground"
/// codes, plain directories in the ANSI "dim" codes.
pub open spec fn styled_name(name: Seq<char>, is_repository: bool) -> Seq<char> {
    if is_repository {
        "\u{1b}[32m"@ + name + "\u{1b}[39m"@
    } else {
        "\u{1b}[2m"@ + name + "\u{1b}[0m"@
    }
}

/// Relies on owo_colors::OwoColorize::dimmed: its Display impl writes the
/// ANSI dim code, the wrapped text, then the ANSI reset code.
#[verifier::external_body]
fn style_dimmed(name: &str) -> (r: String)
    ensures
        r@ == "\u{1b}[2m"@ + name@ + "\u{1b}[0m"@,
{
    name.dimmed().to_string()
}

/// Relies on owo_colors::OwoColorize::green: its Display impl writes the
/// ANSI green-foreground code, the wrapped text, then the ANSI
/// default-foreground code.
#[verifier::external_body]
fn style_green(name: &str) -> (r: String)
    ensures
        r@ == "\u{1b}[32m"@ + name@ + "\u{1b}[39m"@,
{
    name.green().to_string()
}

/// The display form of a plain directory's name: dimmed.
pub fn format_dir(name: &str) -> (r: String)
    ensures
        r@ == styled_name(name@, false),
{
    style_dimmed(name)
}

/// The display form of a repository's name: green.
pub fn format_repo(name: &str) -> (r: String)
    ensures
        r@ == styled_name(name@, true),
{
    style_green(name)
}

} // verus!
