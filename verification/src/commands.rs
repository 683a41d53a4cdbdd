//! Command generation: the project's build/clean templates and the
//! per-job execution template, resolved through the alias table and
//! shaped into the two command forms the process runner accepts — a
//! direct command (explicit executable plus arguments) and a
//! shell-interpreted command line.

use vstd::prelude::*;
use crate::aliases::{restore_str, spec_resolve, AliasError, Aliases};
use crate::subst::{append_chars, chars_to_string, split_at_char, split_chars, str_to_chars, views_of};

verus! {

/// The build and clean command templates of a project. An empty clean
/// template means the project has no clean step.
#[derive(Clone, Debug)]
pub struct Commands {
    pub build: String,
    pub clean: String,
}

/// A direct command: an explicit executable and its positional arguments,
/// run as a process without shell interpretation.
#[derive(Clone, Debug)]
pub struct SubCommand {
    pub executable: String,
    pub args: Vec<String>,
}

/// A build or clean step, always a direct command.
#[derive(Clone, Debug)]
pub struct BuildCommand {
    pub sub_command: SubCommand,
}

/// An execution step: a resolved command line handed to the shell, so the
/// template may use shell syntax.
#[derive(Clone, Debug)]
pub struct ExecutableCommand {
    pub bash_command: String,
}

/// The character contents of a list of strings.
pub open spec fn string_views(ss: Seq<String>) -> Seq<Seq<char>> {
    Seq::new(ss.len(), |i: int| ss[i]@)
}

/// The direct command a template denotes under an alias table: the
/// template resolved to a fixed point, then split on single spaces, the
/// first piece being the executable and the rest its arguments. Nothing
/// when resolution fails on a cyclic alias definition.
pub open spec fn spec_sub_command(
    line: Seq<char>,
    m: Seq<(Seq<char>, Seq<char>)>,
) -> Option<(Seq<char>, Seq<Seq<char>>)> {
    match spec_resolve(line, m, m.len()) {
        Some(resolved) => {
            let parts = split_at_char(resolved, ' ');
            Some((parts[0], parts.subrange(1, parts.len() as int)))
        },
        None => None,
    }
}

/// Resolves a command template and splits it into a direct command.
pub fn generate_command(command_line: &str, shortcuts: &Aliases) -> (r: Result<
    SubCommand,
    AliasError,
>)
    requires
        shortcuts.wf(),
    ensures
        r matches Ok(sc) ==> spec_sub_command(command_line@, shortcuts@) == Some(
            (sc.executable@, string_views(sc.args@)),
        ),
        r is Err ==> spec_sub_command(command_line@, shortcuts@) is None,
{
    let full = match restore_str(command_line, shortcuts) {
        Ok(s) => s,
        Err(e) => {
            return Err(e);
        },
    };
    let chars = str_to_chars(full.as_str());
    let parts = split_chars(&chars, ' ');
    let ghost partviews = split_at_char(full@, ' ');
    let executable = chars_to_string(&parts[0]);
    let mut args: Vec<String> = Vec::new();
    let n = parts.len();
    let mut i: usize = 1;
    while i < n
        invariant
            1 <= i <= n,
            n == parts@.len(),
            views_of(parts@) == partviews,
            string_views(args@) == partviews.subrange(1, i as int),
        decreases n - i,
    {
        let ghost oldargs = args@;
        let piece = chars_to_string(&parts[i]);
        let ghost pieceval = piece@;
        proof {
            assert(string_views(oldargs) == partviews.subrange(1, i as int));
            assert(string_views(oldargs).len() == i - 1);
            assert(oldargs.len() == i - 1);
            assert(views_of(parts@)[i as int] == parts@[i as int]@);
            assert(pieceval == partviews[i as int]);
        }
        args.push(piece);
        proof {
            assert forall|j: int| 0 <= j < i implies string_views(args@)[j]
                == partviews.subrange(1, i + 1)[j] by {
                if j < i - 1 {
                    assert(string_views(oldargs)[j] == partviews.subrange(1, i as int)[j]);
                    assert(args@[j] == oldargs[j]);
                } else {
                    assert(args@[j]@ == pieceval);
                }
            }
            assert(string_views(args@) =~= partviews.subrange(1, i + 1));
        }
        i = i + 1;
    }
    proof {
        assert(string_views(args@) == partviews.subrange(1, partviews.len() as int));
        assert(executable@ == partviews[0]);
    }
    Ok(SubCommand { executable, args })
}

/// The separator inserted when a rendered command line wraps: a trailing
/// backslash, a newline and a continuation marker.
pub open spec fn spec_wrap_sep() -> Seq<char> {
    seq![' ', '\\', '\n', ' ', ' ', ' ', '>', ' ']
}

/// Builds the wrap separator.
fn wrap_sep_chars() -> (r: Vec<char>)
    ensures
        r@ == spec_wrap_sep(),
{
    let mut r: Vec<char> = Vec::new();
    r.push(' ');
    r.push('\\');
    r.push('\n');
    r.push(' ');
    r.push(' ');
    r.push(' ');
    r.push('>');
    r.push(' ');
    assert(r@ =~= spec_wrap_sep());
    r
}

/// The rendered argument list from index `i` on, with `col` characters
/// already on the current output line: arguments separated by single
/// spaces, wrapping before an argument that would run past 80 columns.
pub open spec fn spec_render_args(args: Seq<Seq<char>>, i: int, col: int) -> Seq<char>
    decreases args.len() - i,
{
    if i < 0 || i >= args.len() {
        Seq::empty()
    } else {
        let piece = args[i];
        let col2 = col + piece.len();
        if i + 1 < args.len() {
            if col2 + args[i + 1].len() > 80 {
                piece + spec_wrap_sep() + spec_render_args(args, i + 1, 0)
            } else {
                piece + seq![' '] + spec_render_args(args, i + 1, col2 + 1)
            }
        } else {
            piece
        }
    }
}

/// A direct command rendered for the operator: the executable, a space,
/// then the arguments.
pub open spec fn spec_render(executable: Seq<char>, args: Seq<Seq<char>>) -> Seq<char> {
    executable + seq![' '] + spec_render_args(args, 0, executable.len() as int + 1)
}

/// The column count clamped just past the wrap limit: the rendering
/// decisions compare columns against 80, so larger counts act alike.
pub open spec fn cap81(x: int) -> int {
    if x > 81 {
        81
    } else {
        x
    }
}

impl SubCommand {
    /// Renders the command for the operator, wrapping long argument lists
    /// at 80 columns.
    pub fn render(&self) -> (r: String)
        ensures
            r@ == spec_render(self.executable@, string_views(self.args@)),
    {
        let ghost argviews = string_views(self.args@);
        let ghost whole = spec_render(self.executable@, argviews);
        let mut out = str_to_chars(self.executable.as_str());
        out.push(' ');
        proof {
            assert(out@ =~= self.executable@ + seq![' ']);
        }
        let n = self.args.len();
        let exec_len = self.executable.as_str().unicode_len();
        let mut col: usize = if exec_len >= 81 {
            81
        } else {
            exec_len + 1
        };
        let ghost mut realcol: int = self.executable@.len() as int + 1;
        proof {
            assert(whole == out@ + spec_render_args(argviews, 0, realcol));
        }
        let mut i: usize = 0;
        while i < n
            invariant
                i <= n,
                n == self.args@.len(),
                argviews == string_views(self.args@),
                whole == out@ + spec_render_args(argviews, i as int, realcol),
                col == cap81(realcol),
                realcol >= 0,
            decreases n - i,
        {
            let ghost outhead = out@;
            let pv = str_to_chars(self.args[i].as_str());
            proof {
                assert(argviews[i as int] == self.args@[i as int]@);
            }
            append_chars(&mut out, &pv);
            let ghost realcol2: int = realcol + pv@.len();
            let col2: usize = if col >= 81 || pv.len() >= 81 - col {
                81
            } else {
                col + pv.len()
            };
            proof {
                assert(col2 == cap81(realcol2));
            }
            if i + 1 < n {
                let nxt = str_to_chars(self.args[i + 1].as_str());
                proof {
                    assert(argviews[i + 1] == self.args@[i + 1]@);
                }
                let wrap = if col2 >= 81 {
                    true
                } else {
                    nxt.len() > 80 - col2
                };
                proof {
                    assert(wrap == (realcol2 + argviews[i + 1].len() > 80));
                }
                if wrap {
                    proof {
                        assert(spec_render_args(argviews, i as int, realcol) == argviews[i as int]
                            + spec_wrap_sep() + spec_render_args(argviews, i + 1, 0));
                    }
                    let ws = wrap_sep_chars();
                    append_chars(&mut out, &ws);
                    col = 0;
                    proof {
                        realcol = 0;
                        assert(outhead + (argviews[i as int] + spec_wrap_sep()
                            + spec_render_args(argviews, i + 1, 0)) =~= (outhead
                            + argviews[i as int] + spec_wrap_sep()) + spec_render_args(
                            argviews,
                            i + 1,
                            0,
                        ));
                    }
                } else {
                    proof {
                        assert(spec_render_args(argviews, i as int, realcol) == argviews[i as int]
                            + seq![' '] + spec_render_args(argviews, i + 1, realcol2 + 1));
                    }
                    out.push(' ');
                    col = col2 + 1;
                    proof {
                        realcol = realcol2 + 1;
                        assert(outhead + (argviews[i as int] + seq![' '] + spec_render_args(
                            argviews,
                            i + 1,
                            realcol,
                        )) =~= (outhead + argviews[i as int] + seq![' ']) + spec_render_args(
                            argviews,
                            i + 1,
                            realcol,
                        ));
                    }
                }
            } else {
                col = col2;
                proof {
                    assert(spec_render_args(argviews, i as int, realcol) == argviews[i as int]);
                    realcol = realcol2;
                    assert(spec_render_args(argviews, i + 1, realcol) =~= Seq::<char>::empty());
                    assert(out@ + Seq::<char>::empty() =~= out@);
                }
            }
            i = i + 1;
        }
        proof {
            assert(spec_render_args(argviews, n as int, realcol) =~= Seq::<char>::empty());
            assert(out@ + Seq::<char>::empty() =~= out@);
        }
        chars_to_string(&out)
    }
}

impl Commands {
    /// The project's build step under the current alias table.
    pub fn generate_build(&self, shortcuts: &Aliases) -> (r: Result<BuildCommand, AliasError>)
        requires
            shortcuts.wf(),
        ensures
            r matches Ok(bc) ==> spec_sub_command(self.build@, shortcuts@) == Some(
                (bc.sub_command.executable@, string_views(bc.sub_command.args@)),
            ),
            r is Err ==> spec_sub_command(self.build@, shortcuts@) is None,
    {
        match generate_command(self.build.as_str(), shortcuts) {
            Ok(sub_command) => Ok(BuildCommand { sub_command }),
            Err(e) => Err(e),
        }
    }

    /// The shell command for one job's execution template.
    pub fn generate_executable(&self, shortcuts: &Aliases, cmd: &String) -> (r: Result<
        ExecutableCommand,
        AliasError,
    >)
        requires
            shortcuts.wf(),
        ensures
            r matches Ok(ec) ==> spec_resolve(cmd@, shortcuts@, shortcuts@.len()) == Some(
                ec.bash_command@,
            ),
            r is Err ==> spec_resolve(cmd@, shortcuts@, shortcuts@.len()) is None,
    {
        match restore_str(cmd.as_str(), shortcuts) {
            Ok(bash_command) => Ok(ExecutableCommand { bash_command }),
            Err(e) => Err(e),
        }
    }

    /// The project's clean step, where one is configured: an empty clean
    /// template means there is nothing to clean.
    pub fn generate_clean(&self, shortcuts: &Aliases) -> (r: Result<
        Option<BuildCommand>,
        AliasError,
    >)
        requires
            shortcuts.wf(),
        ensures
            self.clean@.len() == 0 ==> (r matches Ok(c) && c is None),
            self.clean@.len() != 0 ==> (r matches Ok(c) ==> (c matches Some(bc)
                && spec_sub_command(self.clean@, shortcuts@) == Some(
                (bc.sub_command.executable@, string_views(bc.sub_command.args@)),
            ))),
            self.clean@.len() != 0 && r is Err ==> spec_sub_command(self.clean@, shortcuts@)
                is None,
    {
        if self.clean.as_str().is_empty() {
            Ok(None)
        } else {
            match generate_command(self.clean.as_str(), shortcuts) {
                Ok(sub_command) => Ok(Some(BuildCommand { sub_command })),
                Err(e) => Err(e),
            }
        }
    }
}

} // verus!
