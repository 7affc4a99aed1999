//! Shell configuration, and the choice of which shell a session runs.
//!
//! Choosing depends on what exists on the host: the host probes the paths
//! that `shell_probe_targets` names and reports which were found; the
//! choice itself is made here from that report.

use vstd::prelude::*;
use crate::text::{
    ascii_lower, chars_of, contains, has_infix, opt_chars, strings_view, to_ascii_lower,
};

verus! {

pub struct DefaultShell {
    pub darwin: String,
    pub win32: String,
}

pub struct CustomPaths {
    pub darwin: Option<String>,
    pub win32: Option<String>,
}

pub struct ShellConfig {
    pub default_shell: DefaultShell,
    pub custom_paths: CustomPaths,
    /// Variables every session starts with, one entry per name.
    pub default_env: Vec<(String, String)>,
    pub login_shell: bool,
    pub profile_load: bool,
}

impl Default for ShellConfig {
    fn default() -> (r: ShellConfig)
        ensures
            r.default_shell.darwin@ == "zsh"@,
            r.default_shell.win32@ == "pwsh"@,
            r.custom_paths.darwin is None,
            r.custom_paths.win32 is None,
            r.default_env@.len() == 0,
            r.login_shell,
            r.profile_load,
    {
        ShellConfig {
            default_shell: DefaultShell { darwin: "zsh".to_owned(), win32: "pwsh".to_owned() },
            custom_paths: CustomPaths { darwin: None, win32: None },
            default_env: Vec::new(),
            login_shell: true,
            profile_load: true,
        }
    }
}

/// The shell a session runs: program path, arguments, display name.
pub struct ShellInfo {
    pub path: String,
    pub args: Vec<String>,
    pub name: String,
}

pub struct ShellView {
    pub path: Seq<char>,
    pub args: Seq<Seq<char>>,
    pub name: Seq<char>,
}

impl View for ShellInfo {
    type V = ShellView;

    open spec fn view(&self) -> ShellView {
        ShellView { path: self.path@, args: strings_view(self.args@), name: self.name@ }
    }
}

#[derive(PartialEq, Eq, Structural, Debug, Clone, Copy)]
pub enum HostOs {
    Unix,
    Windows,
}

/// What the host found: paths that exist on disk, and names found on the
/// executable search path.
pub struct ShellProbe {
    pub existing: Vec<String>,
    pub on_path: Vec<String>,
}

pub open spec fn in_list(v: Seq<String>, p: Seq<char>) -> bool {
    exists|i: int| 0 <= i < v.len() && #[trigger] v[i]@ == p
}

/// `p` exists on disk or is found on the search path.
pub open spec fn found(probe: ShellProbe, p: Seq<char>) -> bool {
    in_list(probe.existing@, p) || in_list(probe.on_path@, p)
}

pub open spec fn is_sep(c: char, os: HostOs) -> bool {
    c == '/' || (os == HostOs::Windows && c == '\\')
}

pub open spec fn trim_seps(p: Seq<char>, os: HostOs) -> Seq<char>
    decreases p.len(),
{
    if p.len() > 0 && is_sep(p.last(), os) {
        trim_seps(p.drop_last(), os)
    } else {
        p
    }
}

pub open spec fn after_last_sep(p: Seq<char>, os: HostOs) -> Seq<char>
    decreases p.len(),
{
    if p.len() == 0 {
        p
    } else if is_sep(p.last(), os) {
        Seq::empty()
    } else {
        after_last_sep(p.drop_last(), os).push(p.last())
    }
}

/// The last component of a path, trailing separators ignored; the whole
/// path when that component is empty.
pub open spec fn base_name(p: Seq<char>, os: HostOs) -> Seq<char> {
    let b = after_last_sep(trim_seps(p, os), os);
    if b.len() == 0 {
        p
    } else {
        b
    }
}

/// Every trailing `.exe` removed.
pub open spec fn strip_exe(s: Seq<char>) -> Seq<char>
    decreases s.len(),
{
    if s.len() >= 4 && s.subrange(s.len() - 4, s.len() as int) == ".exe"@ {
        strip_exe(s.take(s.len() - 4))
    } else {
        s
    }
}

pub open spec fn info_from_path(p: Seq<char>, os: HostOs, probe: ShellProbe) -> Result<
    ShellView,
    Seq<char>,
> {
    if found(probe, p) {
        Ok(ShellView { path: p, args: Seq::empty(), name: strip_exe(base_name(p, os)) })
    } else {
        Err("shell path does not exist: "@ + p)
    }
}

fn same_text(a: &str, b: &str) -> (r: bool)
    ensures
        r == (a@ == b@),
{
    let x = chars_of(a);
    let y = chars_of(b);
    if x.len() != y.len() {
        return false;
    }
    let mut i: usize = 0;
    while i < x.len()
        invariant
            x.len() == y.len(),
            x@ == a@,
            y@ == b@,
            i <= x.len(),
            forall|j: int| 0 <= j < i ==> x@[j] == y@[j],
        decreases x.len() - i,
    {
        if x[i] != y[i] {
            assert(x@[i as int] != y@[i as int]);
            return false;
        }
        i = i + 1;
    }
    assert(x@ =~= y@);
    true
}

fn listed(v: &Vec<String>, p: &str) -> (r: bool)
    ensures
        r == in_list(v@, p@),
{
    let mut i: usize = 0;
    while i < v.len()
        invariant
            i <= v.len(),
            forall|j: int| 0 <= j < i ==> #[trigger] v@[j]@ != p@,
        decreases v.len() - i,
    {
        if same_text(v[i].as_str(), p) {
            return true;
        }
        i = i + 1;
    }
    false
}

fn base_name_of(p: &str, os: HostOs) -> (r: Vec<char>)
    ensures
        r@ == base_name(p@, os),
{
    let cs = chars_of(p);
    let mut hi: usize = cs.len();
    assert(cs@.take(hi as int) =~= cs@);
    while hi > 0 && (cs[hi - 1] == '/' || (os == HostOs::Windows && cs[hi - 1] == '\\'))
        invariant
            hi <= cs.len(),
            trim_seps(cs@, os) == trim_seps(cs@.take(hi as int), os),
        decreases hi,
    {
        assert(cs@.take(hi as int).drop_last() =~= cs@.take(hi - 1));
        hi = hi - 1;
    }
    let ghost t = cs@.take(hi as int);
    let mut lo: usize = hi;
    assert(t.subrange(hi as int, hi as int) =~= Seq::<char>::empty());
    assert(t.take(hi as int) =~= t);
    while lo > 0 && !(cs[lo - 1] == '/' || (os == HostOs::Windows && cs[lo - 1] == '\\'))
        invariant
            lo <= hi <= cs.len(),
            t == cs@.take(hi as int),
            after_last_sep(t, os) == after_last_sep(t.take(lo as int), os) + t.subrange(
                lo as int,
                hi as int,
            ),
        decreases lo,
    {
        let ghost u = t.take(lo as int);
        assert(u.drop_last() =~= t.take(lo - 1));
        assert(u.last() == cs@[lo - 1]);
        assert(after_last_sep(u, os) == after_last_sep(t.take(lo - 1), os).push(cs@[lo - 1]));
        assert(after_last_sep(t.take(lo - 1), os).push(cs@[lo - 1]) + t.subrange(lo as int, hi as int)
            =~= after_last_sep(t.take(lo - 1), os) + t.subrange(lo - 1, hi as int));
        lo = lo - 1;
    }
    assert(after_last_sep(t.take(lo as int), os) =~= Seq::<char>::empty()) by {
        if lo > 0 {
            assert(t.take(lo as int).last() == cs@[lo - 1]);
        } else {
            assert(t.take(0) =~= Seq::<char>::empty());
        }
    }
    assert(after_last_sep(t, os) =~= t.subrange(lo as int, hi as int));
    if lo == hi {
        cs
    } else {
        let mut out: Vec<char> = Vec::new();
        let mut i: usize = lo;
        while i < hi
            invariant
                lo <= i <= hi <= cs.len(),
                out@ =~= cs@.subrange(lo as int, i as int),
            decreases hi - i,
        {
            out.push(cs[i]);
            i = i + 1;
        }
        assert(t.subrange(lo as int, hi as int) =~= cs@.subrange(lo as int, hi as int));
        out
    }
}

fn strip_exe_chars(s: Vec<char>) -> (r: Vec<char>)
    ensures
        r@ == strip_exe(s@),
{
    let mut hi: usize = s.len();
    assert(s@.take(hi as int) =~= s@);
    loop
        invariant
            hi <= s.len(),
            strip_exe(s@) == strip_exe(s@.take(hi as int)),
        ensures
            hi <= s.len(),
            strip_exe(s@) == s@.take(hi as int),
        decreases hi,
    {
        let ghost t = s@.take(hi as int);
        if hi >= 4 && s[hi - 4] == '.' && s[hi - 3] == 'e' && s[hi - 2] == 'x' && s[hi - 1] == 'e' {
            proof {
                reveal_strlit(".exe");
                assert(t.subrange(t.len() - 4, t.len() as int) =~= ".exe"@);
                assert(t.take(t.len() - 4) =~= s@.take(hi - 4));
            }
            hi = hi - 4;
        } else {
            proof {
                reveal_strlit(".exe");
                if t.len() >= 4 && t.subrange(t.len() - 4, t.len() as int) == ".exe"@ {
                    assert(t.subrange(t.len() - 4, t.len() as int)[0] == s@[hi - 4]);
                    assert(t.subrange(t.len() - 4, t.len() as int)[1] == s@[hi - 3]);
                    assert(t.subrange(t.len() - 4, t.len() as int)[2] == s@[hi - 2]);
                    assert(t.subrange(t.len() - 4, t.len() as int)[3] == s@[hi - 1]);
                }
                assert(strip_exe(t) == t);
            }
            break;
        }
    }
    let mut out: Vec<char> = Vec::new();
    let mut i: usize = 0;
    while i < hi
        invariant
            i <= hi <= s.len(),
            out@ =~= s@.take(i as int),
        decreases hi - i,
    {
        out.push(s[i]);
        i = i + 1;
    }
    out
}

/// The shell at `path`, named after its last component without `.exe`;
/// refused when the host found nothing there.
pub fn shell_info_from_path(path: &str, os: HostOs, probe: &ShellProbe) -> (r: Result<
    ShellInfo,
    String,
>)
    ensures
        match r {
            Ok(i) => info_from_path(path@, os, *probe) == Ok::<ShellView, Seq<char>>(i@),
            Err(e) => info_from_path(path@, os, *probe) == Err::<ShellView, Seq<char>>(e@),
        },
{
    if !listed(&probe.existing, path) && !listed(&probe.on_path, path) {
        let mut msg = "shell path does not exist: ".to_owned();
        msg.append(path);
        return Err(msg);
    }
    let name = crate::text::string_of(&strip_exe_chars(base_name_of(path, os)));
    let args: Vec<String> = Vec::new();
    let info = ShellInfo { path: path.to_owned(), args, name };
    assert(info@.args =~= Seq::<Seq<char>>::empty());
    Ok(info)
}

pub open spec fn pairs_view(v: Seq<(String, String)>) -> Seq<(Seq<char>, Seq<char>)> {
    v.map_values(|p: (String, String)| (p.0@, p.1@))
}

/// The Unix shells tried, in order, for a configured choice: name and path.
pub open spec fn unix_choices(sel: Seq<char>) -> Seq<(Seq<char>, Seq<char>)> {
    if sel == "bash"@ {
        seq![("bash"@, "/bin/bash"@), ("zsh"@, "/bin/zsh"@), ("sh"@, "/bin/sh"@)]
    } else if sel == "fish"@ {
        seq![
            ("fish"@, "/opt/homebrew/bin/fish"@),
            ("fish"@, "/usr/local/bin/fish"@),
            ("zsh"@, "/bin/zsh"@),
        ]
    } else {
        seq![("zsh"@, "/bin/zsh"@), ("bash"@, "/bin/bash"@), ("sh"@, "/bin/sh"@)]
    }
}

/// The Windows shells tried, in order, for a configured choice.
pub open spec fn windows_choices(sel: Seq<char>) -> Seq<Seq<char>> {
    if sel == "powershell"@ {
        seq!["powershell.exe"@, "pwsh.exe"@, "cmd.exe"@]
    } else if sel == "cmd"@ {
        seq!["cmd.exe"@]
    } else {
        seq!["pwsh.exe"@, "powershell.exe"@, "cmd.exe"@]
    }
}

/// The first Unix choice whose path exists on disk.
pub open spec fn pick_unix(c: Seq<(Seq<char>, Seq<char>)>, probe: ShellProbe) -> Result<
    ShellView,
    Seq<char>,
>
    decreases c.len(),
{
    if c.len() == 0 {
        Err("failed to resolve unix shell"@)
    } else if in_list(probe.existing@, c[0].1) {
        Ok(ShellView { path: c[0].1, args: Seq::empty(), name: c[0].0 })
    } else {
        pick_unix(c.drop_first(), probe)
    }
}

/// The first Windows choice found on the search path.
pub open spec fn pick_windows(c: Seq<Seq<char>>, probe: ShellProbe) -> Result<
    ShellView,
    Seq<char>,
>
    decreases c.len(),
{
    if c.len() == 0 {
        Err("failed to resolve windows shell"@)
    } else if in_list(probe.on_path@, c[0]) {
        Ok(ShellView { path: c[0], args: Seq::empty(), name: strip_exe(c[0]) })
    } else {
        pick_windows(c.drop_first(), probe)
    }
}

pub open spec fn unix_shell(config: ShellConfig, probe: ShellProbe) -> Result<ShellView, Seq<char>> {
    if config.default_shell.darwin@ == "custom"@ {
        match config.custom_paths.darwin {
            None => Err("custom darwin shell path is missing"@),
            Some(p) => match info_from_path(p@, HostOs::Unix, probe) {
                Ok(i) => Ok(ShellView { name: "custom"@, ..i }),
                Err(e) => Err(e),
            },
        }
    } else {
        pick_unix(unix_choices(config.default_shell.darwin@), probe)
    }
}

pub open spec fn windows_shell(config: ShellConfig, probe: ShellProbe) -> Result<
    ShellView,
    Seq<char>,
> {
    if config.default_shell.win32@ == "custom"@ {
        match config.custom_paths.win32 {
            None => Err("custom win32 shell path is missing"@),
            Some(p) => info_from_path(p@, HostOs::Windows, probe),
        }
    } else {
        pick_windows(windows_choices(config.default_shell.win32@), probe)
    }
}

/// The arguments that keep a shell from reading its start-up files.
pub open spec fn no_profile_args(name: Seq<char>) -> Seq<Seq<char>> {
    let lower = name.map_values(|c: char| ascii_lower(c));
    if has_infix(lower, "bash"@) {
        seq!["--noprofile"@, "--norc"@]
    } else if has_infix(lower, "zsh"@) {
        seq!["-f"@]
    } else if has_infix(lower, "fish"@) {
        seq!["--no-config"@]
    } else {
        Seq::empty()
    }
}

/// On Unix: `-l` added for a login shell unless already there, then the
/// start-up files switched off when profiles are not to be loaded.
pub open spec fn finish(i: ShellView, config: ShellConfig, os: HostOs) -> ShellView {
    if os == HostOs::Unix {
        let a = if config.login_shell && !i.args.contains("-l"@) {
            i.args.push("-l"@)
        } else {
            i.args
        };
        let b = if !config.profile_load {
            a + no_profile_args(i.name)
        } else {
            a
        };
        ShellView { args: b, ..i }
    } else {
        i
    }
}

pub open spec fn resolved(
    config: ShellConfig,
    override_shell: Option<Seq<char>>,
    os: HostOs,
    probe: ShellProbe,
) -> Result<ShellView, Seq<char>> {
    let base = match override_shell {
        Some(p) => info_from_path(p, os, probe),
        None => if os == HostOs::Windows {
            windows_shell(config, probe)
        } else {
            unix_shell(config, probe)
        },
    };
    match base {
        Ok(i) => Ok(finish(i, config, os)),
        Err(e) => Err(e),
    }
}

pub open spec fn result_view(r: Result<ShellInfo, String>) -> Result<ShellView, Seq<char>> {
    match r {
        Ok(i) => Ok(i@),
        Err(e) => Err(e@),
    }
}

fn pair(a: &str, b: &str) -> (r: (String, String))
    ensures
        r.0@ == a@,
        r.1@ == b@,
{
    (a.to_owned(), b.to_owned())
}

fn unix_choice_list(sel: &str) -> (r: Vec<(String, String)>)
    ensures
        pairs_view(r@) == unix_choices(sel@),
{
    let mut v: Vec<(String, String)> = Vec::new();
    if same_text(sel, "bash") {
        v.push(pair("bash", "/bin/bash"));
        v.push(pair("zsh", "/bin/zsh"));
        v.push(pair("sh", "/bin/sh"));
    } else if same_text(sel, "fish") {
        v.push(pair("fish", "/opt/homebrew/bin/fish"));
        v.push(pair("fish", "/usr/local/bin/fish"));
        v.push(pair("zsh", "/bin/zsh"));
    } else {
        v.push(pair("zsh", "/bin/zsh"));
        v.push(pair("bash", "/bin/bash"));
        v.push(pair("sh", "/bin/sh"));
    }
    assert(pairs_view(v@) =~= unix_choices(sel@));
    v
}

fn windows_choice_list(sel: &str) -> (r: Vec<String>)
    ensures
        strings_view(r@) == windows_choices(sel@),
{
    let mut v: Vec<String> = Vec::new();
    if same_text(sel, "powershell") {
        v.push("powershell.exe".to_owned());
        v.push("pwsh.exe".to_owned());
        v.push("cmd.exe".to_owned());
    } else if same_text(sel, "cmd") {
        v.push("cmd.exe".to_owned());
    } else {
        v.push("pwsh.exe".to_owned());
        v.push("powershell.exe".to_owned());
        v.push("cmd.exe".to_owned());
    }
    assert(strings_view(v@) =~= windows_choices(sel@));
    v
}

fn resolve_unix_shell(config: &ShellConfig, probe: &ShellProbe) -> (r: Result<ShellInfo, String>)
    ensures
        result_view(r) == unix_shell(*config, *probe),
{
    if same_text(config.default_shell.darwin.as_str(), "custom") {
        match &config.custom_paths.darwin {
            None => Err("custom darwin shell path is missing".to_owned()),
            Some(p) => match shell_info_from_path(p.as_str(), HostOs::Unix, probe) {
                Ok(i) => Ok(ShellInfo { path: i.path, args: i.args, name: "custom".to_owned() }),
                Err(e) => Err(e),
            },
        }
    } else {
        let c = unix_choice_list(config.default_shell.darwin.as_str());
        let ghost all = pairs_view(c@);
        let mut i: usize = 0;
        assert(all.skip(0) =~= all);
        while i < c.len()
            invariant
                i <= c.len(),
                all == pairs_view(c@),
                all == unix_choices(config.default_shell.darwin@),
                config.default_shell.darwin@ != "custom"@,
                pick_unix(all, *probe) == pick_unix(all.skip(i as int), *probe),
            decreases c.len() - i,
        {
            assert(all.skip(i as int).drop_first() =~= all.skip(i + 1));
            assert(all.skip(i as int)[0] == all[i as int]);
            assert(all[i as int] == (c@[i as int].0@, c@[i as int].1@));
            if listed(&probe.existing, c[i].1.as_str()) {
                let args: Vec<String> = Vec::new();
                let info = ShellInfo { path: c[i].1.clone(), args, name: c[i].0.clone() };
                assert(info@.args =~= Seq::<Seq<char>>::empty());
                return Ok(info);
            }
            i = i + 1;
        }
        Err("failed to resolve unix shell".to_owned())
    }
}

fn resolve_windows_shell(config: &ShellConfig, probe: &ShellProbe) -> (r: Result<ShellInfo, String>)
    ensures
        result_view(r) == windows_shell(*config, *probe),
{
    if same_text(config.default_shell.win32.as_str(), "custom") {
        match &config.custom_paths.win32 {
            None => Err("custom win32 shell path is missing".to_owned()),
            Some(p) => shell_info_from_path(p.as_str(), HostOs::Windows, probe),
        }
    } else {
        let c = windows_choice_list(config.default_shell.win32.as_str());
        let ghost all = strings_view(c@);
        let mut i: usize = 0;
        assert(all.skip(0) =~= all);
        while i < c.len()
            invariant
                i <= c.len(),
                all == strings_view(c@),
                all == windows_choices(config.default_shell.win32@),
                config.default_shell.win32@ != "custom"@,
                pick_windows(all, *probe) == pick_windows(all.skip(i as int), *probe),
            decreases c.len() - i,
        {
            assert(all.skip(i as int).drop_first() =~= all.skip(i + 1));
            assert(all.skip(i as int)[0] == all[i as int]);
            assert(all[i as int] == c@[i as int]@);
            if listed(&probe.on_path, c[i].as_str()) {
                let args: Vec<String> = Vec::new();
                let name = crate::text::string_of(&strip_exe_chars(chars_of(c[i].as_str())));
                let info = ShellInfo { path: c[i].clone(), args, name };
                assert(info@.args =~= Seq::<Seq<char>>::empty());
                return Ok(info);
            }
            i = i + 1;
        }
        Err("failed to resolve windows shell".to_owned())
    }
}

/// Adds the arguments that keep the shell from reading its start-up files,
/// chosen by its name.
pub fn apply_no_profile_args(info: &mut ShellInfo)
    ensures
        final(info)@ == (ShellView { args: old(info)@.args + no_profile_args(old(info)@.name), ..old(info)@ }),
{
    let lower = to_ascii_lower(&chars_of(info.name.as_str()));
    let ghost before = info@;
    if contains(&lower, "bash") {
        info.args.push("--noprofile".to_owned());
        info.args.push("--norc".to_owned());
    } else if contains(&lower, "zsh") {
        info.args.push("-f".to_owned());
    } else if contains(&lower, "fish") {
        info.args.push("--no-config".to_owned());
    }
    assert(info@.args =~= before.args + no_profile_args(before.name));
}

fn has_arg(args: &Vec<String>, a: &str) -> (r: bool)
    ensures
        r == strings_view(args@).contains(a@),
{
    let mut i: usize = 0;
    while i < args.len()
        invariant
            i <= args.len(),
            forall|j: int| 0 <= j < i ==> #[trigger] args@[j]@ != a@,
        decreases args.len() - i,
    {
        if same_text(args[i].as_str(), a) {
            assert(strings_view(args@)[i as int] == a@);
            return true;
        }
        i = i + 1;
    }
    assert(!strings_view(args@).contains(a@)) by {
        if strings_view(args@).contains(a@) {
            let k = choose|k: int| 0 <= k < args.len() && strings_view(args@)[k] == a@;
            assert(args@[k]@ == a@);
        }
    }
    false
}

/// Chooses the shell a session runs: the override when given, else the
/// configured shell for the host's system, from what the host found; on
/// Unix the login and profile settings then shape its arguments.
pub fn resolve_shell_with_config(
    config: &ShellConfig,
    override_shell: Option<String>,
    os: HostOs,
    probe: &ShellProbe,
) -> (r: Result<ShellInfo, String>)
    ensures
        result_view(r) == resolved(*config, opt_chars(override_shell), os, *probe),
{
    let base = match &override_shell {
        Some(p) => shell_info_from_path(p.as_str(), os, probe),
        None => if os == HostOs::Windows {
            resolve_windows_shell(config, probe)
        } else {
            resolve_unix_shell(config, probe)
        },
    };
    let mut info = match base {
        Ok(i) => i,
        Err(e) => {
            return Err(e);
        },
    };
    if os == HostOs::Unix {
        let ghost start = info@;
        if config.login_shell && !has_arg(&info.args, "-l") {
            let ghost a = strings_view(info.args@);
            info.args.push("-l".to_owned());
            assert(strings_view(info.args@) =~= a.push("-l"@));
        }
        if !config.profile_load {
            apply_no_profile_args(&mut info);
        }
        assert(info@ == finish(start, *config, os));
    }
    Ok(info)
}

/// The paths and names the host must probe before the shell can be chosen.
pub fn shell_probe_targets(config: &ShellConfig, override_shell: &Option<String>, os: HostOs) -> (r: Vec<String>)
    ensures
        strings_view(r@) == probe_targets(*config, opt_chars(*override_shell), os),
{
    let mut v: Vec<String> = Vec::new();
    match override_shell {
        Some(p) => {
            v.push(p.clone());
        },
        None => {
            if os == HostOs::Windows {
                if same_text(config.default_shell.win32.as_str(), "custom") {
                    match &config.custom_paths.win32 {
                        Some(p) => v.push(p.clone()),
                        None => {},
                    }
                } else {
                    v = windows_choice_list(config.default_shell.win32.as_str());
                }
            } else {
                if same_text(config.default_shell.darwin.as_str(), "custom") {
                    match &config.custom_paths.darwin {
                        Some(p) => v.push(p.clone()),
                        None => {},
                    }
                } else {
                    let c = unix_choice_list(config.default_shell.darwin.as_str());
                    let mut i: usize = 0;
                    while i < c.len()
                        invariant
                            i <= c.len(),
                            strings_view(v@) =~= pairs_view(c@).take(i as int).map_values(
                                |q: (Seq<char>, Seq<char>)| q.1,
                            ),
                        decreases c.len() - i,
                    {
                        let ghost before = strings_view(v@);
                        let item = c[i].1.clone();
                        v.push(item);
                        assert(strings_view(v@) =~= before.push(item@));
                        assert(pairs_view(c@).take(i + 1) =~= pairs_view(c@).take(i as int).push(
                            pairs_view(c@)[i as int],
                        ));
                        assert(pairs_view(c@)[i as int].1 == item@);
                        i = i + 1;
                    }
                    assert(pairs_view(c@).take(c.len() as int) =~= pairs_view(c@));
                }
            }
        },
    }
    assert(strings_view(v@) =~= probe_targets(*config, opt_chars(*override_shell), os));
    v
}

pub open spec fn probe_targets(config: ShellConfig, override_shell: Option<Seq<char>>, os: HostOs) -> Seq<
    Seq<char>,
> {
    match override_shell {
        Some(p) => seq![p],
        None => if os == HostOs::Windows {
            if config.default_shell.win32@ == "custom"@ {
                match config.custom_paths.win32 {
                    Some(p) => seq![p@],
                    None => Seq::empty(),
                }
            } else {
                windows_choices(config.default_shell.win32@)
            }
        } else {
            if config.default_shell.darwin@ == "custom"@ {
                match config.custom_paths.darwin {
                    Some(p) => seq![p@],
                    None => Seq::empty(),
                }
            } else {
                unix_choices(config.default_shell.darwin@).map_values(
                    |q: (Seq<char>, Seq<char>)| q.1,
                )
            }
        },
    }
}

} // verus!
