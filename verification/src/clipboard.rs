//! Which clipboard program the server runs to copy a key path, one attempt at a time.
use vstd::prelude::*;
use crate::settings::owned;

verus! {

/// The kinds of system whose clipboard programs differ.
#[derive(PartialEq, Eq, Structural, Clone, Copy)]
pub enum ClipboardPlatform {
    /// `pbcopy`.
    MacOs,
    /// `clip`.
    Windows,
    /// Other Unix systems: `wl-copy`, then `xclip`, then `xsel`.
    Unix,
    /// No clipboard program is known.
    Unsupported,
}

/// A program to run with the text on its standard input.
pub struct ClipboardCommand {
    pub program: String,
    pub args: Vec<String>,
}

/// The next step of copying.
pub enum ClipboardStep {
    /// Run this program with the text on its standard input.
    Run(ClipboardCommand),
    /// The outcome of the program just run is the outcome of the copy.
    ReturnLastOutcome,
    /// The text was copied.
    Copied,
    /// No program could copy the text; the error is of kind "not found".
    NotFound(String),
    /// The system has no clipboard program; the error is of kind "unsupported".
    Unsupported(String),
}

/// A command as the program's name and the texts of its arguments.
pub open spec fn command_view(command: ClipboardCommand) -> (Seq<char>, Seq<Seq<char>>) {
    (command.program@, command.args@.map_values(|arg: String| arg@))
}

/// The clipboard programs tried in turn on other Unix systems.
pub open spec fn unix_candidates() -> Seq<(Seq<char>, Seq<Seq<char>>)> {
    seq![
        ("wl-copy"@, Seq::<Seq<char>>::empty()),
        ("xclip"@, seq!["-selection"@, "clipboard"@]),
        ("xsel"@, seq!["--clipboard"@, "--input"@]),
    ]
}

/// The error when none of the Unix programs worked.
pub open spec fn not_found_message() -> Seq<char> {
    "no clipboard command found: expected wl-copy, xclip, or xsel"@
}

/// The error on a system without a clipboard program.
pub open spec fn unsupported_message() -> Seq<char> {
    "clipboard is not supported on this target"@
}

fn command(program: &str, args: &[&str]) -> (c: ClipboardCommand)
    ensures
        c.program@ == program@,
        c.args@.len() == args@.len(),
        forall|i: int| 0 <= i < args@.len() ==> #[trigger] c.args@[i]@ == args@[i]@,
{
    let mut list: Vec<String> = Vec::new();
    let mut i: usize = 0;
    while i < args.len()
        invariant
            i <= args@.len(),
            list@.len() == i,
            forall|j: int| 0 <= j < i ==> #[trigger] list@[j]@ == args@[j]@,
        decreases args@.len() - i,
    {
        list.push(owned(args[i]));
        i = i + 1;
    }
    ClipboardCommand { program: owned(program), args: list }
}

/// The next step of copying a text, given whether each program run so far succeeded:
/// macOS and Windows run their one program and take its outcome; other Unix systems try
/// `wl-copy`, `xclip` and `xsel` in turn until one succeeds.
pub fn copy_to_clipboard(platform: ClipboardPlatform, outcomes: &[bool]) -> (step: ClipboardStep)
    ensures
        (match platform {
            ClipboardPlatform::MacOs => if outcomes@.len() == 0 {
                step matches ClipboardStep::Run(c) && command_view(c) == ("pbcopy"@, Seq::<
                    Seq<char>,
                >::empty())
            } else {
                step is ReturnLastOutcome
            },
            ClipboardPlatform::Windows => if outcomes@.len() == 0 {
                step matches ClipboardStep::Run(c) && command_view(c) == ("clip"@, Seq::<
                    Seq<char>,
                >::empty())
            } else {
                step is ReturnLastOutcome
            },
            ClipboardPlatform::Unix => if outcomes@.len() > 0 && outcomes@.last() {
                step is Copied
            } else if outcomes@.len() < 3 {
                step matches ClipboardStep::Run(c) && command_view(c) == unix_candidates()[outcomes@.len() as int]
            } else {
                step matches ClipboardStep::NotFound(e) && e@ == not_found_message()
            },
            ClipboardPlatform::Unsupported => step matches ClipboardStep::Unsupported(e) && e@
                == unsupported_message(),
        }),
{
    let n = outcomes.len();
    match platform {
        ClipboardPlatform::MacOs => {
            if n == 0 {
                let c = command("pbcopy", &[]);
                assert(command_view(c).1 =~= Seq::<Seq<char>>::empty());
                ClipboardStep::Run(c)
            } else {
                ClipboardStep::ReturnLastOutcome
            }
        },
        ClipboardPlatform::Windows => {
            if n == 0 {
                let c = command("clip", &[]);
                assert(command_view(c).1 =~= Seq::<Seq<char>>::empty());
                ClipboardStep::Run(c)
            } else {
                ClipboardStep::ReturnLastOutcome
            }
        },
        ClipboardPlatform::Unix => {
            if n > 0 && outcomes[n - 1] {
                ClipboardStep::Copied
            } else if n == 0 {
                let c = command("wl-copy", &[]);
                assert(command_view(c).1 =~= Seq::<Seq<char>>::empty());
                ClipboardStep::Run(c)
            } else if n == 1 {
                let c = command("xclip", &["-selection", "clipboard"]);
                assert(command_view(c).1 =~= seq!["-selection"@, "clipboard"@]);
                ClipboardStep::Run(c)
            } else if n == 2 {
                let c = command("xsel", &["--clipboard", "--input"]);
                assert(command_view(c).1 =~= seq!["--clipboard"@, "--input"@]);
                ClipboardStep::Run(c)
            } else {
                ClipboardStep::NotFound(owned("no clipboard command found: expected wl-copy, xclip, or xsel"))
            }
        },
        ClipboardPlatform::Unsupported => ClipboardStep::Unsupported(
            owned("clipboard is not supported on this target"),
        ),
    }
}

} // verus!
