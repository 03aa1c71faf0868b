//! What the builtin commands do to the shell's variables, environment and
//! arguments.
use crate::context::ShellContext;
use crate::error::ShellError;
use crate::exit_code::ExitCode;
use crate::expand::{byte_of, parse_byte};
use crate::lexer::index_of;
use crate::text::{chars_of, owned, string_of};
use crate::tokens::words;
use crate::vars::VarMap;
use vstd::prelude::*;

verus! {

/// The characters before the first `=` and after it, if there is one.
pub open spec fn split_assignment(e: Seq<char>) -> Option<(Seq<char>, Seq<char>)> {
    match index_of(e, '=') {
        Some(k) => Some((e.subrange(0, k), e.subrange(k + 1, e.len() as int))),
        None => None,
    }
}

/// What `export` does with one expression: `name=value` binds the name;
/// a bare name takes its value from the environment, else from the shell
/// variables, else the empty string. The binding goes to both maps.
pub open spec fn export_one(
    vars: Map<Seq<char>, Seq<char>>,
    env: Map<Seq<char>, Seq<char>>,
    e: Seq<char>,
) -> (Map<Seq<char>, Seq<char>>, Map<Seq<char>, Seq<char>>) {
    let (k, v) = match split_assignment(e) {
        Some(p) => p,
        None => (e, if env.contains_key(e) {
            env[e]
        } else if vars.contains_key(e) {
            vars[e]
        } else {
            seq![]
        }),
    };
    (vars.insert(k, v), env.insert(k, v))
}

/// `export` of the expressions in order.
pub open spec fn export_all(
    vars: Map<Seq<char>, Seq<char>>,
    env: Map<Seq<char>, Seq<char>>,
    es: Seq<Seq<char>>,
) -> (Map<Seq<char>, Seq<char>>, Map<Seq<char>, Seq<char>>)
    decreases es.len(),
{
    if es.len() == 0 {
        (vars, env)
    } else {
        let (v1, e1) = export_one(vars, env, es[0]);
        export_all(v1, e1, es.drop_first())
    }
}

/// Bind a shell variable, and the environment variable too if the
/// environment has that name (what an assignment and `read` do).
pub fn assign(ctx: &mut ShellContext, env: &mut VarMap, name: String, value: String)
    requires
        old(ctx).variables.wf(),
        old(env).wf(),
    ensures
        final(ctx).variables.wf(),
        final(env).wf(),
        final(ctx).do_exit_with == old(ctx).do_exit_with,
        final(ctx).variables@ == old(ctx).variables@.insert(name@, value@),
        final(env)@ == if old(env)@.contains_key(name@) {
            old(env)@.insert(name@, value@)
        } else {
            old(env)@
        },
{
    if env.contains_key(name.as_str()) {
        env.insert(name.clone(), value.clone());
    }
    ctx.variables.insert(name, value);
}

fn split_at_equals(e: &Vec<char>) -> (r: Option<(String, String)>)
    ensures
        match split_assignment(e@) {
            Some(p) => r is Some && {
                let q = r->0;
                q.0@ == p.0 && q.1@ == p.1
            },
            None => r is None,
        },
{
    let mut i: usize = 0;
    while i < e.len()
        invariant
            i <= e@.len(),
            forall|j: int| 0 <= j < i ==> e@[j] != '=',
        decreases e@.len() - i,
    {
        if e[i] == '=' {
            proof {
                crate::lexer::lemma_first_index(e@, '=', i as int);
            }
            let mut a: Vec<char> = Vec::new();
            let mut b: Vec<char> = Vec::new();
            let mut j: usize = 0;
            while j < i
                invariant
                    j <= i,
                    i < e@.len(),
                    a@ == e@.subrange(0, j as int),
                decreases i - j,
            {
                a.push(e[j]);
                j = j + 1;
                assert(a@ =~= e@.subrange(0, j as int));
            }
            j = i + 1;
            assert(b@ =~= e@.subrange(i + 1, j as int));
            while j < e.len()
                invariant
                    i + 1 <= j <= e@.len(),
                    b@ == e@.subrange(i + 1, j as int),
                decreases e@.len() - j,
            {
                b.push(e[j]);
                j = j + 1;
                assert(b@ =~= e@.subrange(i + 1, j as int));
            }
            return Some((string_of(&a), string_of(&b)));
        }
        i = i + 1;
    }
    proof {
        crate::lexer::lemma_no_index(e@, '=');
    }
    None
}

/// `export [NAME[=VALUE] ...]`: each expression binds a name in both the
/// shell variables and the environment.
pub fn export(ctx: &mut ShellContext, env: &mut VarMap, args: &Vec<String>) -> (r: ExitCode)
    requires
        old(ctx).variables.wf(),
        old(env).wf(),
    ensures
        r == ExitCode::Success,
        final(ctx).variables.wf(),
        final(env).wf(),
        final(ctx).do_exit_with == old(ctx).do_exit_with,
        (final(ctx).variables@, final(env)@) == export_all(
            old(ctx).variables@,
            old(env)@,
            if args@.len() == 0 { seq![] } else { words(args@).drop_first() },
        ),
{
    let ghost es = if args@.len() == 0 { Seq::<Seq<char>>::empty() } else { words(args@).drop_first() };
    let ghost target = export_all(ctx.variables@, env@, es);
    let mut i: usize = 1;
    if args.len() == 0 {
        return ExitCode::Success;
    }
    assert(es =~= words(args@).subrange(1, args@.len() as int));
    while i < args.len()
        invariant
            1 <= i <= args@.len(),
            ctx.variables.wf(),
            env.wf(),
            ctx.do_exit_with == old(ctx).do_exit_with,
            target == export_all(ctx.variables@, env@, words(args@).subrange(i as int, args@.len() as int)),
            target == export_all(old(ctx).variables@, old(env)@, es),
        decreases args@.len() - i,
    {
        let ghost rest = words(args@).subrange(i as int, args@.len() as int);
        assert(rest[0] == args@[i as int]@);
        assert(rest.drop_first() =~= words(args@).subrange(i + 1, args@.len() as int));
        let e = chars_of(args[i].as_str());
        let (k, v) = match split_at_equals(&e) {
            Some(p) => p,
            None => {
                let name = owned(args[i].as_str());
                let value = match env.get(args[i].as_str()) {
                    Some(v) => v,
                    None => match ctx.variables.get(args[i].as_str()) {
                        Some(v) => v,
                        None => String::new(),
                    },
                };
                (name, value)
            },
        };
        env.insert(k.clone(), v.clone());
        ctx.variables.insert(k, v);
        i = i + 1;
    }
    assert(words(args@).subrange(i as int, args@.len() as int).len() == 0);
    ExitCode::Success
}

/// The status that `exit [CODE]` leaves with: success without a code, the
/// code's status with one; anything else is a usage error.
pub open spec fn exit_status_of(args: Seq<Seq<char>>) -> Option<ExitCode> {
    if args.len() <= 1 {
        Some(ExitCode::Success)
    } else if args.len() == 2 {
        match byte_of(args[1]) {
            Some(b) => Some(ExitCode::spec_from_code(b)),
            None => None,
        }
    } else {
        None
    }
}

/// `exit [CODE]`: records the status the shell exits with.
pub fn exit(ctx: &mut ShellContext, args: &Vec<String>) -> (r: Result<ExitCode, ShellError>)
    ensures
        final(ctx).variables == old(ctx).variables,
        match exit_status_of(words(args@)) {
            Some(c) => r == Ok::<ExitCode, ShellError>(c) && final(ctx).do_exit_with == Some(c),
            None => r == Err::<ExitCode, ShellError>(ShellError::Usage) && final(ctx).do_exit_with
                == old(ctx).do_exit_with,
        },
{
    let code = if args.len() <= 1 {
        ExitCode::Success
    } else if args.len() == 2 {
        match parse_byte(&chars_of(args[1].as_str())) {
            Some(b) => ExitCode::from_code(b),
            None => {
                return Err(ShellError::Usage);
            },
        }
    } else {
        return Err(ShellError::Usage);
    };
    ctx.do_exit_with = Some(code);
    Ok(code)
}

/// The words of `args` from `from` on.
fn words_from(args: &Vec<String>, from: usize) -> (r: Vec<String>)
    requires
        from <= args@.len(),
    ensures
        words(r@) == words(args@).subrange(from as int, args@.len() as int),
{
    let mut r: Vec<String> = Vec::new();
    let mut i = from;
    while i < args.len()
        invariant
            from <= i <= args@.len(),
            words(r@) == words(args@).subrange(from as int, i as int),
        decreases args@.len() - i,
    {
        let ghost r0 = r@;
        let x = args[i].clone();
        assert(x@ == args@[i as int]@);
        r.push(x);
        assert(words(r@) =~= words(r0).push(x@));
        assert(words(r@) =~= words(args@).subrange(from as int, i + 1));
        i = i + 1;
    }
    r
}

/// `exec [-a NAME] COMMAND [ARGS...]`: the program to run and its argument
/// list, which starts with NAME if given, else with COMMAND.
pub fn exec_args(args: &Vec<String>) -> (r: Result<(String, Vec<String>), ShellError>)
    ensures
        ({
            let w = words(args@);
            let named = w.len() >= 2 && w[1] == seq!['-', 'a'];
            if named {
                if w.len() >= 4 {
                    r is Ok && r->Ok_0.0@ == w[3] && words(r->Ok_0.1@) == seq![w[2]] + w.subrange(4, w.len() as int)
                } else {
                    r == Err::<(String, Vec<String>), ShellError>(ShellError::Usage)
                }
            } else if w.len() >= 2 {
                r is Ok && r->Ok_0.0@ == w[1] && words(r->Ok_0.1@) == w.subrange(1, w.len() as int)
            } else {
                r == Err::<(String, Vec<String>), ShellError>(ShellError::Usage)
            }
        }),
{
    proof {
        reveal_strlit("-a");
        assert("-a"@ =~= seq!['-', 'a']);
    }
    if args.len() >= 2 && crate::text::same_text(args[1].as_str(), "-a") {
        if args.len() < 4 {
            return Err(ShellError::Usage);
        }
        let rest = words_from(args, 4);
        let mut argv: Vec<String> = vec![args[2].clone()];
        let ghost a0 = argv@;
        let mut rest = rest;
        argv.append(&mut rest);
        assert(words(argv@) =~= seq![words(args@)[2]] + words(args@).subrange(4, args@.len() as int));
        return Ok((args[3].clone(), argv));
    }
    if args.len() < 2 {
        return Err(ShellError::Usage);
    }
    Ok((args[1].clone(), words_from(args, 1)))
}

/// `source FILE [ARGS...]`: the script to read and the arguments it runs
/// with, starting with FILE.
pub fn source_args(args: &Vec<String>) -> (r: Result<(String, Vec<String>), ShellError>)
    ensures
        args@.len() < 2 ==> r == Err::<(String, Vec<String>), ShellError>(ShellError::Usage),
        args@.len() >= 2 ==> r is Ok && r->Ok_0.0@ == args@[1]@ && words(r->Ok_0.1@) == words(args@).subrange(
            1,
            args@.len() as int,
        ),
{
    if args.len() < 2 {
        return Err(ShellError::Usage);
    }
    Ok((args[1].clone(), words_from(args, 1)))
}

/// `cd [DIR|-]`: the directory to change to, if any. `-` means the value
/// of `OLDPWD`.
pub fn cd_target(env: &VarMap, args: &Vec<String>) -> (r: Result<Option<String>, ShellError>)
    requires
        env.wf(),
    ensures
        args@.len() > 2 ==> r == Err::<Option<String>, ShellError>(ShellError::Usage),
        args@.len() <= 1 ==> r == Ok::<Option<String>, ShellError>(None),
        args@.len() == 2 && args@[1]@ != seq!['-'] ==> r is Ok && r->Ok_0 is Some && r->Ok_0->0@ == args@[1]@,
        args@.len() == 2 && args@[1]@ == seq!['-'] ==> if env@.contains_key(seq!['O', 'L', 'D', 'P', 'W', 'D']) {
            r is Ok && r->Ok_0 is Some && r->Ok_0->0@ == env@[seq!['O', 'L', 'D', 'P', 'W', 'D']]
        } else {
            r == Err::<Option<String>, ShellError>(ShellError::OldPwdUnset)
        },
{
    proof {
        reveal_strlit("-");
        reveal_strlit("OLDPWD");
        assert("-"@ =~= seq!['-']);
        assert("OLDPWD"@ =~= seq!['O', 'L', 'D', 'P', 'W', 'D']);
    }
    if args.len() > 2 {
        return Err(ShellError::Usage);
    }
    if args.len() <= 1 {
        return Ok(None);
    }
    if crate::text::same_text(args[1].as_str(), "-") {
        match env.get("OLDPWD") {
            Some(v) => Ok(Some(v)),
            None => Err(ShellError::OldPwdUnset),
        }
    } else {
        Ok(Some(args[1].clone()))
    }
}

/// After `cd` entered a directory: `OLDPWD` holds the directory left, `PWD`
/// the one entered.
pub fn record_cd(env: &mut VarMap, left: String, entered: String)
    requires
        old(env).wf(),
    ensures
        final(env).wf(),
        final(env)@ == old(env)@.insert(seq!['O', 'L', 'D', 'P', 'W', 'D'], left@).insert(
            seq!['P', 'W', 'D'],
            entered@,
        ),
{
    proof {
        reveal_strlit("OLDPWD");
        reveal_strlit("PWD");
        assert("OLDPWD"@ =~= seq!['O', 'L', 'D', 'P', 'W', 'D']);
        assert("PWD"@ =~= seq!['P', 'W', 'D']);
    }
    env.insert(owned("OLDPWD"), left);
    env.insert(owned("PWD"), entered);
}

} // verus!
