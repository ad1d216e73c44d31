//! The command line's decisions: the arguments Cargo forwards, which commands
//! compile PDFs, and the ports the dev server tries.

use vstd::prelude::*;
use crate::project::imports::strings_view;

verus! {

/// The arguments the tool's parser should see: Cargo invokes external
/// commands as `cargo-<name> <name> ...`, so a forwarded `fy-docs` after the
/// program name is dropped; a missing program name reads `cargo-fy-docs`.
pub open spec fn external_args(args: Seq<Seq<char>>) -> Seq<Seq<char>> {
    if args.len() == 0 {
        seq!["cargo-fy-docs"@]
    } else if args.len() > 1 && args[1] == "fy-docs"@ {
        seq![args[0]] + args.skip(2)
    } else {
        seq![args[0]] + args.skip(1)
    }
}

/// Where the tool's own arguments begin after the program name: past a
/// forwarded `fy-docs` when Cargo put one there.
pub open spec fn own_args_from(args: Seq<Seq<char>>) -> int {
    if args.len() > 1 && args[1] == "fy-docs"@ {
        2
    } else {
        1
    }
}

/// The index at which the tool's own arguments begin: `2` when Cargo forwarded
/// the subcommand name `fy-docs` after the program name, `1` otherwise. The
/// comparison is on text, so a caller holding the arguments as OS strings can
/// pass their lossy conversions and keep the originals.
pub fn own_args_start(args: &[String]) -> (r: usize)
    ensures
        r == own_args_from(strings_view(args@)),
{
    let ghost a = strings_view(args@);
    if args.len() > 1 {
        let v = crate::text::chars_of(args[1].as_str());
        assert(a[1] == args@[1]@);
        if crate::text::eq_str(v.as_slice(), "fy-docs") {
            return 2;
        }
    }
    1
}

/// Cargo invokes external commands as `cargo-<name> <name> ...`; remove the
/// forwarded subcommand name so the parser receives the tool's own arguments.
pub fn cargo_external_args(args: Vec<String>) -> (r: Vec<String>)
    ensures
        strings_view(r@) == external_args(strings_view(args@)),
{
    let ghost a = strings_view(args@);
    let mut out: Vec<String> = Vec::new();
    if args.len() == 0 {
        out.push("cargo-fy-docs".to_owned());
        return out;
    }
    out.push(args[0].clone());
    let start = own_args_start(args.as_slice());
    let ghost head = strings_view(out@);
    assert(head =~= seq![a[0]]);
    assert(a.subrange(start as int, start as int) =~= Seq::<Seq<char>>::empty());
    let mut i = start;
    while i < args.len()
        invariant
            1 <= start <= i <= args@.len(),
            a == strings_view(args@),
            strings_view(out@) == head + a.subrange(start as int, i as int),
        decreases args.len() - i,
    {
        let ghost before = strings_view(out@);
        out.push(args[i].clone());
        assert(strings_view(out@) =~= before.push(a[i as int]));
        assert(a.subrange(start as int, i + 1) =~= a.subrange(start as int, i as int).push(
            a[i as int],
        ));
        i = i + 1;
    }
    assert(a.subrange(start as int, args@.len() as int) =~= a.skip(start as int));
    out
}

/// The subcommands, as the dispatcher tells them apart.
#[derive(Debug, Clone, Copy, PartialEq, Eq, Structural)]
pub enum CommandKind {
    Init,
    Vendor,
    Build,
    Html,
    Pdf,
    Dev,
    Serve,
}

/// Whether every generation of a session also compiles PDFs: always for the
/// default command and `build`, on request (`--with-pdf`) for the others.
pub fn compiles_pdf(command: Option<CommandKind>, with_pdf: bool) -> (r: bool)
    ensures
        r == match command {
            None => true,
            Some(CommandKind::Build) => true,
            _ => with_pdf,
        },
{
    match command {
        None => true,
        Some(CommandKind::Build) => true,
        _ => with_pdf,
    }
}

/// The last port the dev server tries, counting up from `port`: twenty in
/// all, fewer where the port numbers end.
pub fn last_port(port: u16) -> (r: u16)
    ensures
        r == if port + 19 <= u16::MAX {
            port + 19
        } else {
            u16::MAX as int
        },
{
    port.saturating_add(19)
}

} // verus!
