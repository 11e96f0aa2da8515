//! How an agent process is started for a run: the program, its arguments and
//! what goes to its standard input, and how its exit is read.
use vstd::prelude::*;
use crate::model::{AgentConfig, InputMode, RunStatus};
use crate::schedule::{shell_line, shell_line_of};
use crate::text::{views, owned, cat};

verus! {

/// The way a provider takes its prompt; standard input when none is set.
pub open spec fn mode_of(m: Option<InputMode>) -> InputMode {
    match m {
        Some(x) => x,
        None => InputMode::Stdin,
    }
}

/// What starting an agent takes.
pub struct Launch {
    pub program: String,
    pub args: Vec<String>,
    /// Text written to the process's standard input, if any.
    pub stdin: Option<String>,
}

pub ghost struct LaunchView {
    pub program: Seq<char>,
    pub args: Seq<Seq<char>>,
    pub stdin: Option<Seq<char>>,
}

impl View for Launch {
    type V = LaunchView;

    open spec fn view(&self) -> LaunchView {
        LaunchView {
            program: self.program@,
            args: views(self.args@),
            stdin: match self.stdin {
                Some(s) => Some(s@),
                None => None,
            },
        }
    }
}

/// How a provider is started for `prompt`. Without a shell its command runs
/// with its arguments; with one, the command line goes to `sh -lc` (or to
/// `cmd /C` on Windows). In `Arg` mode the prompt is the last argument (in a
/// `sh` line it is passed on as `"$@"`); in `Stdin` mode it goes to standard
/// input; in `NoPrompt` mode it is not passed.
pub open spec fn launch_of(p: AgentConfig, prompt: Seq<char>, windows: bool) -> LaunchView {
    let mode = mode_of(p.input_mode);
    let stdin = if mode == InputMode::Stdin {
        Some(prompt)
    } else {
        None
    };
    let line = shell_line_of(p@);
    if p.shell == Some(true) {
        if windows {
            LaunchView {
                program: "cmd"@,
                args: if mode == InputMode::Arg {
                    seq!["/C"@, line, prompt]
                } else {
                    seq!["/C"@, line]
                },
                stdin,
            }
        } else {
            LaunchView {
                program: "sh"@,
                args: if mode == InputMode::Arg {
                    seq!["-lc"@, line + " \"$@\""@, "sh"@, prompt]
                } else {
                    seq!["-lc"@, line]
                },
                stdin,
            }
        }
    } else {
        LaunchView {
            program: p.command@,
            args: if mode == InputMode::Arg {
                views(p.args@).push(prompt)
            } else {
                views(p.args@)
            },
            stdin,
        }
    }
}

/// Law: the prompt reaches the agent as the input mode says, and in no other
/// way. Only `Stdin` mode writes it to standard input. In `Stdin` and
/// `NoPrompt` modes the program and its arguments do not depend on the
/// prompt, and `NoPrompt` starts exactly what `Stdin` starts. In `Arg` mode
/// the prompt is the last argument.
pub proof fn lemma_input_modes(p: AgentConfig, prompt: Seq<char>, other: Seq<char>, windows: bool)
    ensures
        launch_of(p, prompt, windows).stdin == (if mode_of(p.input_mode) == InputMode::Stdin {
            Some(prompt)
        } else {
            None
        }),
        mode_of(p.input_mode) != InputMode::Arg ==> launch_of(p, prompt, windows).program == launch_of(
            p,
            other,
            windows,
        ).program && launch_of(p, prompt, windows).args == launch_of(p, other, windows).args,
        mode_of(p.input_mode) == InputMode::NoPrompt ==> launch_of(p, prompt, windows).args == launch_of(
            AgentConfig { input_mode: Some(InputMode::Stdin), ..p },
            prompt,
            windows,
        ).args && launch_of(p, prompt, windows).program == launch_of(
            AgentConfig { input_mode: Some(InputMode::Stdin), ..p },
            prompt,
            windows,
        ).program,
        mode_of(p.input_mode) == InputMode::Arg ==> launch_of(p, prompt, windows).args.len() > 0
            && launch_of(p, prompt, windows).args.last() == prompt,
{
}

/// How to start the provider `p` for `prompt`.
pub fn launch_plan(p: &AgentConfig, prompt: &str, windows: bool) -> (l: Launch)
    ensures
        l@ == launch_of(*p, prompt@, windows),
{
    let mode = match p.input_mode {
        Some(m) => m,
        None => InputMode::Stdin,
    };
    let stdin = if mode == InputMode::Stdin {
        Some(owned(prompt))
    } else {
        None
    };
    let shell = match p.shell {
        Some(b) => b,
        None => false,
    };
    let mut args: Vec<String> = Vec::new();
    if shell {
        let line = shell_line(p);
        if windows {
            args.push(owned("/C"));
            args.push(line);
            if mode == InputMode::Arg {
                args.push(owned(prompt));
            }
            proof {
                assert(views(args@) =~= launch_of(*p, prompt@, windows).args);
            }
            Launch { program: owned("cmd"), args, stdin }
        } else {
            args.push(owned("-lc"));
            if mode == InputMode::Arg {
                args.push(cat(line.as_str(), " \"$@\""));
                args.push(owned("sh"));
                args.push(owned(prompt));
            } else {
                args.push(line);
            }
            proof {
                assert(views(args@) =~= launch_of(*p, prompt@, windows).args);
            }
            Launch { program: owned("sh"), args, stdin }
        }
    } else {
        let mut i: usize = 0;
        while i < p.args.len()
            invariant
                i <= p.args@.len(),
                views(args@) == views(p.args@).subrange(0, i as int),
            decreases p.args.len() - i,
        {
            let ghost before = args@;
            args.push(owned(p.args[i].as_str()));
            assert(views(args@) =~= views(before).push(p.args@[i as int]@));
            i = i + 1;
            assert(views(args@) =~= views(p.args@).subrange(0, i as int));
        }
        assert(views(p.args@).subrange(0, i as int) =~= views(p.args@));
        if mode == InputMode::Arg {
            args.push(owned(prompt));
        }
        proof {
            assert(views(args@) =~= launch_of(*p, prompt@, windows).args);
        }
        Launch { program: owned(p.command.as_str()), args, stdin }
    }
}

/// The status a run ends in: `Done` when its process exited with code 0,
/// else `Failed`.
pub fn exit_status(exit_code: Option<i32>) -> (s: RunStatus)
    ensures
        s == (if exit_code == Some(0i32) {
            RunStatus::Done
        } else {
            RunStatus::Failed
        }),
{
    match exit_code {
        Some(0) => RunStatus::Done,
        _ => RunStatus::Failed,
    }
}

} // verus!
