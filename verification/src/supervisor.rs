//! The child supervisor's decisions: what to spawn, with which arguments
//! and credentials, and how to react when the child exits or a command
//! arrives.  Spawning, waiting and killing are the caller's.

use vstd::prelude::*;

use crate::config::{Config, ConfigV};
use crate::text::{ascii, dec_digits, lit, push_all, u64_to_dec};
use crate::versions::{version_exe_path, BadVersionName};

verus! {

/// A command for the supervisor loop.
#[derive(PartialEq, Eq, Structural)]
pub enum ClientMonitorCommand {
    Restart,
    Shutdown,
}

/// What the supervisor does next.
#[derive(PartialEq, Eq, Structural)]
pub enum MonitorDecision {
    /// Kill the child's tree and spawn it again.
    Respawn,
    /// Kill the child's tree and leave the loop.
    Exit,
}

/// Decides the supervisor's next step after the child was interrupted by
/// a command: only an explicit restart respawns; a shutdown, or a closed
/// command channel, ends the loop.
pub fn monitor_step(cmd: Option<ClientMonitorCommand>) -> (r: MonitorDecision)
    ensures
        r == MonitorDecision::Respawn <==> cmd == Some(ClientMonitorCommand::Restart),
{
    match cmd {
        Some(ClientMonitorCommand::Restart) => MonitorDecision::Respawn,
        Some(ClientMonitorCommand::Shutdown) => MonitorDecision::Exit,
        None => MonitorDecision::Exit,
    }
}

/// The credential the renderer echoes back on the control channel:
/// `<port>-<secret>-<app-version>`.
pub open spec fn bridge_password_text(port: u16, secret: Seq<u8>, app_version: Seq<u8>) -> Seq<
    u8,
> {
    dec_digits(port as nat) + seq!['-' as u8] + secret + seq!['-' as u8] + app_version
}

/// Renders the renderer's control credential.
pub fn bridge_password(port: u16, secret: &[u8], app_version: &[u8]) -> (r: Vec<u8>)
    ensures
        r@ == bridge_password_text(port, secret@, app_version@),
{
    let mut r = u64_to_dec(port as u64);
    r.push('-' as u8);
    push_all(&mut r, secret);
    r.push('-' as u8);
    push_all(&mut r, app_version);
    proof {
        assert(r@ =~= bridge_password_text(port, secret@, app_version@));
    }
    r
}

/// The argument list the child is spawned with: the extra flags, the
/// Wayland flags when asked for, and in build-tool mode the electron
/// wrapper around them.
pub open spec fn launch_args(c: ConfigV) -> Seq<Seq<u8>> {
    let base = if c.use_wayland {
        c.extra_flags + seq![
            ascii("--enable-features=UseOzonePlatform"@),
            ascii("--ozone-platform=wayland"@),
        ]
    } else {
        c.extra_flags
    };
    if c.launch_build_tool {
        seq![ascii("electron"@)] + base + seq![ascii("index.js"@)]
    } else {
        base
    }
}

/// The program the supervisor spawns: the package runner in build-tool
/// mode, else the active version's executable.
pub open spec fn launch_program(c: ConfigV, app_root: Seq<u8>, windows: bool) -> Option<Seq<u8>> {
    if c.launch_build_tool {
        Some(c.npm)
    } else {
        version_exe_path(app_root, c.newest_version, windows)
    }
}

/// The local address of the developer web server, set only in build-tool
/// mode.
pub open spec fn web_server_text(c: ConfigV) -> Seq<u8> {
    if c.launch_build_tool {
        ascii("http://localhost:8080"@)
    } else {
        Seq::empty()
    }
}

/// Everything a spawn needs: the program, its arguments, and the
/// developer web server address to hand down.
pub struct LaunchPlan {
    pub program: Vec<u8>,
    pub args: Vec<Vec<u8>>,
    pub web_server: Vec<u8>,
}

fn clone_byte_vecs(v: &Vec<Vec<u8>>) -> (r: Vec<Vec<u8>>)
    ensures
        r@.map_values(|f: Vec<u8>| f@) == v@.map_values(|f: Vec<u8>| f@),
{
    let mut r: Vec<Vec<u8>> = Vec::new();
    let mut i: usize = 0;
    proof {
        assert(r@.map_values(|f: Vec<u8>| f@) =~= v@.take(0).map_values(|f: Vec<u8>| f@));
    }
    while i < v.len()
        invariant
            i <= v@.len(),
            r@.map_values(|f: Vec<u8>| f@) == v@.take(i as int).map_values(|f: Vec<u8>| f@),
        decreases v@.len() - i,
    {
        r.push(vstd::slice::slice_to_vec(v[i].as_slice()));
        proof {
            assert(v@.take(i + 1).map_values(|f: Vec<u8>| f@) =~= v@.take(i as int).map_values(
                |f: Vec<u8>| f@,
            ).push(v@[i as int]@));
            assert(r@.map_values(|f: Vec<u8>| f@) =~= v@.take(i + 1).map_values(
                |f: Vec<u8>| f@,
            ));
        }
        i += 1;
    }
    proof {
        assert(v@.take(i as int) =~= v@);
    }
    r
}

/// Plans a spawn from a configuration snapshot: exactly the program,
/// arguments and web-server address the snapshot calls for; a fatal error
/// when the active version's name cannot be launched.
pub fn plan_launch(config: &Config, app_root: &[u8], windows: bool) -> (r: Result<
    LaunchPlan,
    BadVersionName,
>)
    ensures
        match r {
            Ok(p) => {
                &&& Some(p.program@) == launch_program(config@, app_root@, windows)
                &&& p.args@.map_values(|f: Vec<u8>| f@) == launch_args(config@)
                &&& p.web_server@ == web_server_text(config@)
            },
            Err(_) => launch_program(config@, app_root@, windows) is None,
        },
{
    proof {
        reveal_strlit("--enable-features=UseOzonePlatform");
        reveal_strlit("--ozone-platform=wayland");
        reveal_strlit("electron");
        reveal_strlit("index.js");
        reveal_strlit("http://localhost:8080");
    }
    let program: Vec<u8>;
    if config.launch_build_tool {
        program = vstd::slice::slice_to_vec(config.npm.as_slice());
    } else {
        match crate::versions::get_specific_version_location(
            app_root,
            config.newest_version.as_slice(),
            windows,
        ) {
            Ok(p) => {
                program = p;
            },
            Err(e) => {
                return Err(e);
            },
        }
    }
    let mut base = clone_byte_vecs(&config.extra_flags);
    if config.use_wayland {
        base.push(lit("--enable-features=UseOzonePlatform"));
        base.push(lit("--ozone-platform=wayland"));
        proof {
            assert(base@.map_values(|f: Vec<u8>| f@) =~= config@.extra_flags + seq![
                ascii("--enable-features=UseOzonePlatform"@),
                ascii("--ozone-platform=wayland"@),
            ]);
        }
    }
    let ghost base_spec = if config@.use_wayland {
        config@.extra_flags + seq![
            ascii("--enable-features=UseOzonePlatform"@),
            ascii("--ozone-platform=wayland"@),
        ]
    } else {
        config@.extra_flags
    };
    proof {
        assert(base@.map_values(|f: Vec<u8>| f@) == base_spec);
    }
    let mut args: Vec<Vec<u8>>;
    let web_server: Vec<u8>;
    if config.launch_build_tool {
        args = Vec::new();
        args.push(lit("electron"));
        proof {
            assert(args@.map_values(|f: Vec<u8>| f@) =~= seq![ascii("electron"@)] + base@.take(
                0,
            ).map_values(|f: Vec<u8>| f@));
        }
        let mut i: usize = 0;
        while i < base.len()
            invariant
                i <= base@.len(),
                args@.len() == i + 1,
                args@.map_values(|f: Vec<u8>| f@) == seq![ascii("electron"@)] + base@.take(
                    i as int,
                ).map_values(|f: Vec<u8>| f@),
            decreases base@.len() - i,
        {
            let ghost before = args@.map_values(|f: Vec<u8>| f@);
            args.push(vstd::slice::slice_to_vec(base[i].as_slice()));
            proof {
                assert(args@.map_values(|f: Vec<u8>| f@) =~= before.push(base@[i as int]@));
                assert(base@.take(i + 1).map_values(|f: Vec<u8>| f@) =~= base@.take(
                    i as int,
                ).map_values(|f: Vec<u8>| f@).push(base@[i as int]@));
                assert(args@.map_values(|f: Vec<u8>| f@) =~= seq![ascii("electron"@)]
                    + base@.take(i + 1).map_values(|f: Vec<u8>| f@));
            }
            i += 1;
        }
        proof {
            assert(base@.take(i as int) =~= base@);
        }
        let ghost before_tail = args@.map_values(|f: Vec<u8>| f@);
        args.push(lit("index.js"));
        web_server = lit("http://localhost:8080");
        proof {
            assert(args@.map_values(|f: Vec<u8>| f@) =~= before_tail.push(ascii("index.js"@)));
            assert(args@.map_values(|f: Vec<u8>| f@) =~= launch_args(config@));
        }
    } else {
        args = base;
        web_server = Vec::new();
        proof {
            assert(web_server@ =~= Seq::<u8>::empty());
        }
    }
    Ok(LaunchPlan { program, args, web_server })
}

} // verus!
