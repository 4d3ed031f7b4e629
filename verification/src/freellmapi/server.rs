//! Where a checkout of the FreeLLMAPI server is looked for, and how it is started.
use vstd::prelude::*;

use crate::path;
use crate::path::prefix::System;
use crate::text;

verus! {

/// The server directory that a configured root stands for: the root itself if it is one.
pub open spec fn root_candidate(root: Seq<char>, system: System) -> Seq<char> {
    if path::name_of(root, system) == Some("server"@) {
        root
    } else {
        path::child_of(root, "server"@, system)
    }
}

/// The server directory of a checkout that lies in a directory.
pub open spec fn checkout_under(dir: Seq<char>, system: System) -> Seq<char> {
    path::child_of(path::child_of(dir, "freellmapi"@, system), "server"@, system)
}

/// The server directories of checkouts that lie in a directory or above it, the nearest first.
pub open spec fn checkouts_above(dir: Seq<char>, system: System) -> Seq<Seq<char>> {
    path::ancestors_of(dir, system).map_values(|above: Seq<char>| checkout_under(above, system))
}

/// Where the server is looked for: under the configured root, then from the working directory
/// upwards, then from the running program upwards.
pub open spec fn candidates_for(
    root: Option<Seq<char>>,
    cwd: Seq<char>,
    exe: Option<Seq<char>>,
    system: System,
) -> Seq<Seq<char>> {
    (match root {
        Some(dir) => seq![root_candidate(dir, system)],
        None => seq![],
    }) + checkouts_above(cwd, system) + (match exe {
        Some(program) => checkouts_above(program, system),
        None => seq![],
    })
}

/// The names in the path of a checkout are names.
proof fn lemma_checkout_names()
    ensures
        path::is_name("freellmapi"@),
        path::is_name("server"@),
{
    reveal_strlit("freellmapi");
    reveal_strlit("server");
}

/// The text of an optional string slice.
pub open spec fn optional_text(s: Option<&str>) -> Option<Seq<char>> {
    match s {
        Some(text) => Some(text@),
        None => None,
    }
}

/// Adds the server directories of checkouts that lie in a directory or above it.
fn add_checkouts_above(candidates: &mut Vec<String>, dir: &str, system: System)
    ensures
        text::texts(final(candidates)@) == text::texts(old(candidates)@)
            + checkouts_above(dir@, system),
{
    let above = path::ancestors(dir, system);
    let ghost all = checkouts_above(dir@, system);
    let ghost start = text::texts(candidates@);
    proof {
        assert(text::texts(above@).len() == above@.len());
        assert(start + all.take(0) =~= start);
    }
    let mut i: usize = 0;
    while i < above.len()
        invariant
            i <= above@.len(),
            above@.len() == all.len(),
            all == checkouts_above(dir@, system),
            text::texts(above@) == path::ancestors_of(dir@, system),
            text::texts(candidates@) == start + all.take(i as int),
        decreases above@.len() - i,
    {
        let ghost before = text::texts(candidates@);
        proof {
            lemma_checkout_names();
        }
        let checkout = path::child(above[i].as_str(), "freellmapi", system);
        let server = path::child(checkout.as_str(), "server", system);
        candidates.push(server);
        proof {
            assert(text::texts(above@)[i as int] == above@[i as int]@);
            assert(all[i as int] == server@);
            assert(text::texts(candidates@) =~= before.push(server@));
            assert(all.take(i + 1) =~= all.take(i as int).push(server@));
            assert(start + all.take(i + 1) =~= (start + all.take(i as int)).push(server@));
        }
        i = i + 1;
    }
    assert(all.take(all.len() as int) =~= all);
}

/// Where the server is looked for: under the configured root, then from the working directory
/// upwards, then from the running program upwards.
pub fn server_candidates(
    root: Option<&str>,
    cwd: &str,
    exe: Option<&str>,
    system: System,
) -> (candidates: Vec<String>)
    ensures
        text::texts(candidates@) == candidates_for(
            optional_text(root),
            cwd@,
            optional_text(exe),
            system,
        ),
{
    let mut candidates: Vec<String> = Vec::new();
    proof {
        lemma_checkout_names();
    }
    if let Some(dir) = root {
        let is_server = match path::file_name(dir, system) {
            Some(name) => text::same_text(name, "server"),
            None => false,
        };
        let candidate = if is_server {
            String::from_str(dir)
        } else {
            path::child(dir, "server", system)
        };
        candidates.push(candidate);
        assert(text::texts(candidates@) =~= seq![root_candidate(dir@, system)]);
    } else {
        assert(text::texts(candidates@) =~= seq![]);
    }
    add_checkouts_above(&mut candidates, cwd, system);
    if let Some(program) = exe {
        add_checkouts_above(&mut candidates, program, system);
    } else {
        assert(text::texts(candidates@) + Seq::<Seq<char>>::empty() =~= text::texts(
            candidates@,
        ));
    }
    candidates
}

/// Which files a directory holds.
#[derive(Clone, Copy, Debug, PartialEq, Eq, Structural)]
pub struct ServerProbe {
    /// `package.json`
    pub manifest: bool,
    /// `dist/index.js`
    pub built: bool,
    /// `src/index.ts`
    pub source: bool,
}

/// Whether a directory that holds these files is a server directory.
pub open spec fn is_server_dir(probe: ServerProbe) -> bool {
    probe.manifest && (probe.built || probe.source)
}

/// The first of the directories that is a server directory.
pub fn find_server_dir(probes: &[ServerProbe]) -> (found: Option<usize>)
    ensures
        match found {
            Some(i) => i < probes@.len() && is_server_dir(probes@[i as int]) && forall|j: int|
                0 <= j < i ==> !is_server_dir(#[trigger] probes@[j]),
            None => forall|j: int| 0 <= j < probes@.len() ==> !is_server_dir(#[trigger] probes@[j]),
        },
        found is None <==> forall|j: int|
            0 <= j < probes@.len() ==> {
                &&& (#[trigger] probes@[j]).built ==> !probes@[j].manifest
                &&& probes@[j].source ==> !probes@[j].manifest
            },
{
    let mut i: usize = 0;
    while i < probes.len()
        invariant
            i <= probes@.len(),
            forall|j: int| 0 <= j < i ==> !is_server_dir(#[trigger] probes@[j]),
        decreases probes@.len() - i,
    {
        let probe = probes[i];
        if probe.manifest && (probe.built || probe.source) {
            return Some(i);
        }
        i = i + 1;
    }
    None
}

/// A program and its arguments.
pub struct ServerCommand {
    pub program: &'static str,
    pub args: Vec<&'static str>,
}

/// The program that starts a server: its build if there is one, else its development mode, by the
/// shell of the system.
pub open spec fn start_program(built: bool, system: System) -> Seq<char> {
    if built {
        "node"@
    } else if system == System::Windows {
        "cmd"@
    } else {
        "sh"@
    }
}

/// The arguments of the program that starts a server.
pub open spec fn start_args(built: bool, system: System) -> Seq<Seq<char>> {
    if built {
        seq!["dist/index.js"@]
    } else if system == System::Windows {
        seq!["/C"@, "npm run dev"@]
    } else {
        seq!["-lc"@, "npm run dev"@]
    }
}

/// How a server is started, given whether it has been built, and on which system.
pub fn start_server(built: bool, system: System) -> (command: ServerCommand)
    ensures
        command.program@ == start_program(built, system),
        text::views(command.args@) == start_args(built, system),
{
    let mut args: Vec<&'static str> = Vec::new();
    let program = if built {
        args.push("dist/index.js");
        "node"
    } else if system == System::Windows {
        args.push("/C");
        args.push("npm run dev");
        "cmd"
    } else {
        args.push("-lc");
        args.push("npm run dev");
        "sh"
    };
    assert(text::views(args@) =~= start_args(built, system));
    ServerCommand { program, args }
}

/// A configured root is looked at first, and whatever the root, checkouts next to the working
/// directory are looked at before those next to the running program.
pub proof fn law_candidates_in_order(
    root: Option<Seq<char>>,
    cwd: Seq<char>,
    exe: Option<Seq<char>>,
    system: System,
)
    ensures
        root matches Some(dir) ==> candidates_for(root, cwd, exe, system).first()
            == root_candidate(dir, system),
        candidates_for(root, cwd, exe, system).contains(checkout_under(cwd, system)),
        checkouts_above(cwd, system).is_prefix_of(
            candidates_for(root, cwd, exe, system).skip(
                if root is Some {
                    1
                } else {
                    0
                },
            ),
        ),
        exe matches Some(program) ==> checkouts_above(program, system).is_suffix_of(
            candidates_for(root, cwd, exe, system),
        ),
{
    let all = candidates_for(root, cwd, exe, system);
    let skipped: int = if root is Some {
        1
    } else {
        0
    };
    let here = checkouts_above(cwd, system);
    assert(here[0] == checkout_under(path::ancestors_of(cwd, system)[0], system));
    assert(all[skipped] == checkout_under(cwd, system));
    assert(here =~= all.skip(skipped).subrange(0, here.len() as int));
    if let Some(program) = exe {
        let there = checkouts_above(program, system);
        assert(there =~= all.subrange(all.len() - there.len(), all.len() as int));
    }
}

/// An optional string slice is there as a text exactly if it is there.
pub proof fn law_optional_texts(s: &str)
    ensures
        optional_text(Some(s)) == Some(s@),
        optional_text(None) is None,
{
}

/// A directory with a manifest and a build is a server directory whether or not it has the source,
/// and one with a manifest and the source whether or not it has a build; none without a manifest is
/// one, nor one with a manifest alone.
pub proof fn law_server_directories(manifest: bool, built: bool, source: bool)
    ensures
        is_server_dir(ServerProbe { manifest: true, built: true, source }),
        is_server_dir(ServerProbe { manifest: true, built, source: true }),
        !is_server_dir(ServerProbe { manifest: false, built, source }),
        !is_server_dir(ServerProbe { manifest, built: false, source: false }),
{
}

/// A file more never makes a server directory cease to be one.
pub proof fn law_more_files_do_no_harm(few: ServerProbe, more: ServerProbe)
    requires
        is_server_dir(few),
        few.manifest ==> more.manifest,
        few.built ==> more.built,
        few.source ==> more.source,
    ensures
        is_server_dir(more),
{
}

/// A server that has been built is started as such on any system; one that has not, in its
/// development mode, by the shell of the system.
pub proof fn law_start_commands(system: System)
    ensures
        start_program(true, system) == "node"@,
        start_args(true, system) == seq!["dist/index.js"@],
        start_program(false, System::Unix) == "sh"@,
        start_args(false, System::Unix) == seq!["-lc"@, "npm run dev"@],
        start_program(false, System::Windows) == "cmd"@,
        start_args(false, System::Windows) == seq!["/C"@, "npm run dev"@],
{
}

/// There is one candidate for a configured root and one for each directory above the working
/// directory and above the running program, these directories included; in that order, the nearest
/// first.
pub proof fn law_one_candidate_for_each_directory(
    root: Option<Seq<char>>,
    cwd: Seq<char>,
    exe: Option<Seq<char>>,
    i: int,
    system: System,
)
    ensures
        ({
            let all = candidates_for(root, cwd, exe, system);
            let first: int = if root is Some {
                1
            } else {
                0
            };
            let near = path::ancestors_of(cwd, system);
            let far = if exe is Some {
                path::ancestors_of(exe->0, system)
            } else {
                Seq::empty()
            };
            &&& all.len() == first + near.len() + far.len()
            &&& root is Some ==> all[0] == root_candidate(root->0, system)
            &&& 0 <= i < near.len() ==> all[first + i] == checkout_under(near[i], system)
            &&& 0 <= i < far.len() ==> all[first + near.len() + i] == checkout_under(far[i], system)
        }),
{
    assert(checkouts_above(cwd, system).len() == path::ancestors_of(cwd, system).len());
    if let Some(program) = exe {
        assert(checkouts_above(program, system).len() == path::ancestors_of(program, system).len());
    }
}

/// A checkout lies in the directory that it is looked for in, under its own name, and the server
/// under its own name in that; a root that is no server directory itself holds the server.
pub proof fn law_checkout_lies_in_its_directory(dir: Seq<char>)
    ensures
        dir.len() > 0 && dir.last() != '/' ==> checkout_under(dir, System::Unix) == dir
            + "/freellmapi/server"@ && (path::name_of(dir, System::Unix) != Some("server"@)
            ==> root_candidate(dir, System::Unix) == dir + "/server"@),
        dir.len() == 0 || dir.last() == '/' ==> checkout_under(dir, System::Unix) == dir
            + "freellmapi/server"@ && (path::name_of(dir, System::Unix) != Some("server"@)
            ==> root_candidate(dir, System::Unix) == dir + "server"@),
        path::name_of(dir, System::Unix) == Some("server"@) ==> root_candidate(dir, System::Unix)
            == dir,
        path::name_of(dir, System::Windows) == Some("server"@) ==> root_candidate(
            dir,
            System::Windows,
        ) == dir,
{
    reveal_strlit("freellmapi");
    reveal_strlit("server");
    reveal_strlit("/server");
    reveal_strlit("freellmapi/server");
    reveal_strlit("/freellmapi/server");
    let inner = path::child_of(dir, "freellmapi"@, System::Unix);
    assert(inner.last() == 'i');
    if dir.len() > 0 && dir.last() != '/' {
        assert(checkout_under(dir, System::Unix) =~= dir + "/freellmapi/server"@);
        assert(path::child_of(dir, "server"@, System::Unix) =~= dir + "/server"@);
    } else {
        assert(checkout_under(dir, System::Unix) =~= dir + "freellmapi/server"@);
    }
}

} // verus!
