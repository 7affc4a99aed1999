//! What a spawn request turns into: program, arguments, working directory,
//! environment and terminal size, decided before any process exists.

use vstd::prelude::*;
use crate::settings::ShellInfo;
use crate::text::{opt_chars, strings_view};

verus! {

/// The terminal type every session's environment announces.
pub const TERM_NAME: &'static str = "TERM";

pub const TERM_VALUE: &'static str = "xterm-256color";

/// The working directory a session starts in when none is given: the
/// host's own.
pub const DEFAULT_CWD: &'static str = ".";

/// Environment entries with no two under one name.
pub open spec fn names_unique(s: Seq<(String, String)>) -> bool {
    forall|i: int, j: int|
        0 <= i < s.len() && 0 <= j < s.len() && i != j ==> #[trigger] s[i].0@ != #[trigger] s[j].0@
}

pub open spec fn env_has(s: Seq<(String, String)>, k: Seq<char>) -> bool {
    exists|i: int| 0 <= i < s.len() && #[trigger] s[i].0@ == k
}

/// The environment as a map from name to value.
pub open spec fn env_map(s: Seq<(String, String)>) -> Map<Seq<char>, Seq<char>> {
    Map::new(
        |k: Seq<char>| env_has(s, k),
        |k: Seq<char>| s[choose|i: int| 0 <= i < s.len() && #[trigger] s[i].0@ == k].1@,
    )
}

/// Entries set one after another on top of `base`: a later one wins.
pub open spec fn overlay(base: Map<Seq<char>, Seq<char>>, s: Seq<(String, String)>) -> Map<
    Seq<char>,
    Seq<char>,
>
    decreases s.len(),
{
    if s.len() == 0 {
        base
    } else {
        overlay(base, s.drop_last()).insert(s.last().0@, s.last().1@)
    }
}

/// Sets `name` to `value`, replacing an entry of that name if there is one.
pub fn set_var(env: &mut Vec<(String, String)>, name: String, value: String)
    requires
        names_unique(old(env)@),
    ensures
        names_unique(final(env)@),
        env_map(final(env)@) == env_map(old(env)@).insert(name@, value@),
{
    let ghost k = name@;
    let ghost v = value@;
    let mut i: usize = 0;
    while i < env.len()
        invariant
            i <= env.len(),
            env@ == old(env)@,
            names_unique(old(env)@),
            forall|j: int| 0 <= j < i ==> #[trigger] env@[j].0@ != k,
            name@ == k,
            value@ == v,
        decreases env.len() - i,
    {
        if env[i].0 == name {
            let ghost prev = env@;
            env.set(i, (name, value));
            proof {
                let s = env@;
                assert(prev[i as int].0@ == k);
                assert(s[i as int].0@ == k);
                assert(s[i as int].1@ == v);
                assert forall|a: int, b: int|
                    0 <= a < s.len() && 0 <= b < s.len() && a != b implies #[trigger] s[a].0@
                    != #[trigger] s[b].0@ by {
                    assert(a != i ==> s[a] == prev[a]);
                    assert(b != i ==> s[b] == prev[b]);
                    assert(s[i as int].0@ == prev[i as int].0@);
                }
                assert forall|q: Seq<char>| #[trigger] env_map(s).contains_key(q) == env_map(
                    prev,
                ).insert(k, v).contains_key(q) by {
                    if env_has(s, q) {
                        let c = choose|c: int| 0 <= c < s.len() && #[trigger] s[c].0@ == q;
                        if c != i {
                            assert(s[c] == prev[c]);
                            assert(env_has(prev, q));
                        }
                    }
                    if env_has(prev, q) {
                        let c = choose|c: int| 0 <= c < prev.len() && #[trigger] prev[c].0@ == q;
                        if c != i {
                            assert(s[c] == prev[c]);
                            assert(s[c].0@ == q);
                        } else {
                            assert(s[i as int].0@ == q);
                        }
                        assert(env_has(s, q));
                    }
                    if q == k {
                        assert(s[i as int].0@ == q);
                    }
                }
                assert forall|q: Seq<char>| env_map(s).contains_key(q) implies #[trigger] env_map(
                    s,
                )[q] == env_map(prev).insert(k, v)[q] by {
                    let c = choose|c: int| 0 <= c < s.len() && #[trigger] s[c].0@ == q;
                    if q == k {
                        if c != i {
                            assert(s[c] == prev[c]);
                        }
                        assert(c == i);
                    } else {
                        assert(c != i);
                        assert(s[c] == prev[c]);
                        assert(env_has(prev, q));
                        let d = choose|d: int| 0 <= d < prev.len() && #[trigger] prev[d].0@ == q;
                        assert(d != i);
                        assert(s[d] == prev[d]);
                        assert(c == d);
                    }
                }
                assert(env_map(s) =~= env_map(prev).insert(k, v));
            }
            return ;
        }
        i = i + 1;
    }
    let ghost prev = env@;
    env.push((name, value));
    proof {
        let s = env@;
        let n = prev.len();
        assert(!env_has(prev, k));
        assert forall|a: int, b: int|
            0 <= a < s.len() && 0 <= b < s.len() && a != b implies #[trigger] s[a].0@
            != #[trigger] s[b].0@ by {
            if a < n {
                assert(s[a] == prev[a]);
            }
            if b < n {
                assert(s[b] == prev[b]);
            }
        }
        assert forall|q: Seq<char>| #[trigger] env_map(s).contains_key(q) == env_map(prev).insert(
            k,
            v,
        ).contains_key(q) by {
            if env_has(s, q) {
                let c = choose|c: int| 0 <= c < s.len() && #[trigger] s[c].0@ == q;
                if c < n {
                    assert(s[c] == prev[c]);
                }
            }
            if env_has(prev, q) {
                let c = choose|c: int| 0 <= c < prev.len() && #[trigger] prev[c].0@ == q;
                assert(s[c] == prev[c]);
            }
            if q == k {
                assert(s[n as int].0@ == q);
            }
        }
        assert forall|q: Seq<char>| env_map(s).contains_key(q) implies #[trigger] env_map(s)[q]
            == env_map(prev).insert(k, v)[q] by {
            let c = choose|c: int| 0 <= c < s.len() && #[trigger] s[c].0@ == q;
            if q == k {
                if c < n {
                    assert(s[c] == prev[c]);
                }
                assert(c == n);
            } else {
                assert(c < n);
                assert(s[c] == prev[c]);
                let d = choose|d: int| 0 <= d < prev.len() && #[trigger] prev[d].0@ == q;
                assert(s[d] == prev[d]);
                assert(c == d);
            }
        }
        assert(env_map(s) =~= env_map(prev).insert(k, v));
    }
}

/// Sets every entry of `extra` in order on top of `env`.
pub fn set_vars(env: &mut Vec<(String, String)>, extra: &Vec<(String, String)>)
    requires
        names_unique(old(env)@),
    ensures
        names_unique(final(env)@),
        env_map(final(env)@) == overlay(env_map(old(env)@), extra@),
{
    let mut i: usize = 0;
    assert(extra@.take(0) =~= Seq::<(String, String)>::empty());
    while i < extra.len()
        invariant
            i <= extra.len(),
            names_unique(env@),
            env_map(env@) == overlay(env_map(old(env)@), extra@.take(i as int)),
        decreases extra.len() - i,
    {
        assert(extra@.take(i + 1).drop_last() =~= extra@.take(i as int));
        let k = extra[i].0.clone();
        let v = extra[i].1.clone();
        set_var(env, k, v);
        i = i + 1;
    }
    assert(extra@.take(extra.len() as int) =~= extra@);
}

/// Everything needed to start a session's child on a new terminal.
pub struct SpawnPlan {
    pub program: String,
    pub args: Vec<String>,
    pub cwd: String,
    pub env: Vec<(String, String)>,
    pub cols: u16,
    pub rows: u16,
}

/// The working directory asked for, or the host's own.
pub open spec fn cwd_or_default(cwd: Option<Seq<char>>) -> Seq<char> {
    match cwd {
        Some(c) => c,
        None => DEFAULT_CWD@,
    }
}

/// The session's environment: configured defaults, the caller's variables
/// over them, and the terminal type last.
pub open spec fn session_env(
    defaults: Seq<(String, String)>,
    extra: Option<Vec<(String, String)>>,
) -> Map<Seq<char>, Seq<char>> {
    let base = overlay(Map::empty(), defaults);
    let merged = match extra {
        Some(e) => overlay(base, e@),
        None => base,
    };
    merged.insert(TERM_NAME@, TERM_VALUE@)
}

/// Plans a spawn: the resolved shell with its arguments, the working
/// directory (the host's own when none is given), the merged environment,
/// and the terminal size.
pub fn plan_spawn(
    shell: ShellInfo,
    default_env: &Vec<(String, String)>,
    extra_env: &Option<Vec<(String, String)>>,
    cwd: Option<String>,
    cols: u16,
    rows: u16,
) -> (r: SpawnPlan)
    ensures
        r.program@ == shell.path@,
        strings_view(r.args@) == strings_view(shell.args@),
        r.cwd@ == cwd_or_default(opt_chars(cwd)),
        names_unique(r.env@),
        env_map(r.env@) == session_env(default_env@, *extra_env),
        r.cols == cols,
        r.rows == rows,
{
    let mut env: Vec<(String, String)> = Vec::new();
    assert(env_map(env@) =~= Map::<Seq<char>, Seq<char>>::empty());
    set_vars(&mut env, default_env);
    match extra_env {
        Some(e) => set_vars(&mut env, e),
        None => {},
    }
    set_var(&mut env, TERM_NAME.to_owned(), TERM_VALUE.to_owned());
    let dir = match cwd {
        Some(c) => c,
        None => DEFAULT_CWD.to_owned(),
    };
    SpawnPlan { program: shell.path, args: shell.args, cwd: dir, env, cols, rows }
}

} // verus!
