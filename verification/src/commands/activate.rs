//! `uvr activate`: puts the environment of a project into the current shell.
//!
//! The scripts that are put beside a project hold no paths. They ask this program for
//! the environment each time, so they are never out of date.

use vstd::prelude::*;

use crate::r_env;
use crate::r_env::{Environment, Platform, REnv};
use crate::strings;
use crate::text;

verus! {

/// The shells that there is code for.
#[derive(Debug, Clone, Copy, PartialEq, Eq, Structural)]
pub enum ActivateShell {
    Sh,
    Bash,
    Zsh,
    Fish,
    Powershell,
}

/// The directory of a project that this program keeps its files in.
pub const DOT_UVR_DIR: &'static str = ".uvr";

/// The name of the script for POSIX shells.
pub const SHIM_SH: &'static str = "activate";

/// The name of the script for fish.
pub const SHIM_FISH: &'static str = "activate.fish";

/// The name of the script for PowerShell.
pub const SHIM_PS1: &'static str = "activate.ps1";

/// A value in single quotes for POSIX shells. A quote in it ends the quoted part, is
/// escaped, and another quoted part begins.
pub open spec fn sh_quoted(s: Seq<char>) -> Seq<char> {
    "'"@ + strings::replace(s, '\'', "'\\''"@) + "'"@
}

/// A value in single quotes for fish, which reads `\\` and `\'` between them.
pub open spec fn fish_quoted(s: Seq<char>) -> Seq<char> {
    "'"@ + strings::replace(strings::replace(s, '\\', "\\\\"@), '\'', "\\'"@) + "'"@
}

/// A value in single quotes for PowerShell, where a quote is doubled.
pub open spec fn ps_quoted(s: Seq<char>) -> Seq<char> {
    "'"@ + strings::replace(s, '\'', "''"@) + "'"@
}

/// A value in single quotes for POSIX shells.
pub fn sh_quote(s: &str) -> (r: String)
    ensures
        r@ == sh_quoted(s@),
{
    let cs = text::chars_of(s);
    let mut q = "'".to_owned();
    q.append(text::replace(cs.as_slice(), '\'', "'\\''").as_str());
    q.append("'");
    q
}

/// A value in single quotes for fish.
pub fn fish_quote(s: &str) -> (r: String)
    ensures
        r@ == fish_quoted(s@),
{
    let cs = text::chars_of(s);
    let escaped = text::replace(cs.as_slice(), '\\', "\\\\");
    let es = text::chars_of(escaped.as_str());
    let mut q = "'".to_owned();
    q.append(text::replace(es.as_slice(), '\'', "\\'").as_str());
    q.append("'");
    q
}

/// A value in single quotes for PowerShell.
pub fn ps_quote(s: &str) -> (r: String)
    ensures
        r@ == ps_quoted(s@),
{
    let cs = text::chars_of(s);
    let mut q = "'".to_owned();
    q.append(text::replace(cs.as_slice(), '\'', "''").as_str());
    q.append("'");
    q
}

/// The line that saves a variable for POSIX shells: its value, and whether it is set.
pub open spec fn posix_save(n: Seq<char>) -> Seq<char> {
    "UVR_OLD_"@ + n + "=\"${"@ + n + "-}\"; UVR_OLD_"@ + n + "_SET=\"${"@ + n
        + "+1}\"; export UVR_OLD_"@ + n + " UVR_OLD_"@ + n + "_SET\n"@
}

/// The line that restores a variable for POSIX shells.
pub open spec fn posix_restore(n: Seq<char>) -> Seq<char> {
    "    if [ -n \"${UVR_OLD_"@ + n + "_SET-}\" ]; then "@ + n + "=\"${UVR_OLD_"@ + n
        + "-}\"; export "@ + n + "; else unset "@ + n + "; fi\n"@
}

/// The line that unsets a variable for POSIX shells.
pub open spec fn posix_unset(n: Seq<char>) -> Seq<char> {
    "    unset "@ + n + "\n"@
}

/// The lines that save a variable for fish.
pub open spec fn fish_save(n: Seq<char>) -> Seq<char> {
    "if set -q "@ + n + "\n    set -g UVR_OLD_"@ + n + " $"@ + n + "\n    set -g UVR_OLD_"@ + n
        + "_SET 1\nelse\n    set -g UVR_OLD_"@ + n + "_SET ''\nend\n"@
}

/// The lines that restore a variable for fish.
pub open spec fn fish_restore(n: Seq<char>) -> Seq<char> {
    "    if test -n \"$UVR_OLD_"@ + n + "_SET\"\n        set -gx "@ + n + " $UVR_OLD_"@ + n
        + "\n    else\n        set -e "@ + n + "\n    end\n"@
}

/// The line that unsets a variable for fish.
pub open spec fn fish_unset(n: Seq<char>) -> Seq<char> {
    "    set -e "@ + n + "\n"@
}

/// The line that saves a variable for PowerShell.
pub open spec fn ps_save(n: Seq<char>) -> Seq<char> {
    "if (Test-Path Env:\\"@ + n + ") { $env:UVR_OLD_"@ + n + " = $env:"@ + n + "; $env:UVR_OLD_"@
        + n + "_SET = '1' } else { $env:UVR_OLD_"@ + n + "_SET = '' }\n"@
}

/// The line that restores a variable for PowerShell.
pub open spec fn ps_restore(n: Seq<char>) -> Seq<char> {
    "    if ($env:UVR_OLD_"@ + n + "_SET) { $env:"@ + n + " = $env:UVR_OLD_"@ + n
        + " } else { Remove-Item Env:\\"@ + n + " -ErrorAction SilentlyContinue }\n"@
}

/// The line that unsets a variable for PowerShell.
pub open spec fn ps_unset(n: Seq<char>) -> Seq<char> {
    "    Remove-Item Env:\\"@ + n + " -ErrorAction SilentlyContinue\n"@
}

/// The lines that drop what was saved of a variable for PowerShell.
pub open spec fn ps_clean(n: Seq<char>) -> Seq<char> {
    "    Remove-Item Env:\\UVR_OLD_"@ + n
        + " -ErrorAction SilentlyContinue\n    Remove-Item Env:\\UVR_OLD_"@ + n
        + "_SET -ErrorAction SilentlyContinue\n"@
}

/// The line that sets a variable for POSIX shells.
pub open spec fn posix_set(n: Seq<char>, v: Seq<char>) -> Seq<char> {
    n + "="@ + sh_quoted(v) + "; export "@ + n + "\n"@
}

/// The line that sets a variable for fish.
pub open spec fn fish_set(n: Seq<char>, v: Seq<char>) -> Seq<char> {
    "set -gx "@ + n + " "@ + fish_quoted(v) + "\n"@
}

/// The line that sets a variable for PowerShell.
pub open spec fn ps_set(n: Seq<char>, v: Seq<char>) -> Seq<char> {
    "$env:"@ + n + " = "@ + ps_quoted(v) + "\n"@
}

/// The names under which the variables are saved, two for each.
pub open spec fn saved_names(names: Seq<Seq<char>>) -> Seq<Seq<char>> {
    Seq::new(
        names.len() * 2,
        |i: int|
            if i % 2 == 0 {
                "UVR_OLD_"@ + names[i / 2]
            } else {
                "UVR_OLD_"@ + names[i / 2] + "_SET"@
            },
    )
}

/// The variable that names the project whose activation is in place. It is a mark of
/// this program, so undoing the activation unsets it, whatever it was before.
pub open spec fn marker() -> Seq<char> {
    "UVR_PROJECT"@
}

/// The variables that undoing an activation gives their old values: the search path
/// and those of the environment.
pub open spec fn given_back(vars: Seq<(Seq<char>, Seq<char>)>) -> Seq<Seq<char>> {
    seq!["PATH"@] + Seq::new(vars.len(), |i: int| vars[i].0)
}

/// The variables that an activation takes over: the search path, those of the
/// environment, and the name of the project.
pub open spec fn taken_over(vars: Seq<(Seq<char>, Seq<char>)>) -> Seq<Seq<char>> {
    given_back(vars) + seq![marker()]
}

/// What goes into an activation.
pub struct Activation {
    pub project: Seq<char>,
    /// What stands between the paths of a list of paths.
    pub sep: Seq<char>,
    pub bin_dir: Seq<char>,
    pub vars: Seq<(Seq<char>, Seq<char>)>,
}

/// The lines of an activation for POSIX shells: a previous activation is undone, what is
/// there is saved, the environment is set, and a function that undoes all of it is
/// defined.
pub open spec fn posix_lines(a: Activation) -> Seq<Seq<char>> {
    let names = taken_over(a.vars);
    let restored = given_back(a.vars);
    seq![
        "# uvr activation for project "@ + a.project
            + " — generated by `uvr activate --emit sh`.\n"@,
        "if command -v deactivate >/dev/null 2>&1; then deactivate; fi\n"@,
    ] + Seq::new(names.len(), |i: int| posix_save(names[i])) + seq![
        "PATH="@ + sh_quoted(a.bin_dir) + "\""@ + a.sep + "${PATH-}\"; export PATH\n"@,
    ] + Seq::new(a.vars.len(), |i: int| posix_set(a.vars[i].0, a.vars[i].1)) + seq![
        "UVR_PROJECT="@ + sh_quoted(a.project) + "; export UVR_PROJECT\n"@,
        "deactivate() {\n"@,
    ] + Seq::new(restored.len(), |i: int| posix_restore(restored[i])) + seq![
        posix_unset(marker()),
        "    unset "@ + strings::join(saved_names(names), " "@) + "\n"@,
        "    unset -f deactivate\n"@,
        "}\n"@,
    ]
}

/// The activation for POSIX shells.
pub open spec fn posix_script(a: Activation) -> Seq<char> {
    strings::join(posix_lines(a), ""@)
}

/// The lines of an activation for fish: a previous activation is undone, what is
/// there is saved, the environment is set, and a function that undoes all of it is
/// defined.
pub open spec fn fish_lines(a: Activation) -> Seq<Seq<char>> {
    let names = taken_over(a.vars);
    let restored = given_back(a.vars);
    seq![
        "# uvr activation for project "@ + a.project
            + " — generated by `uvr activate --emit fish`.\n"@,
        "if functions -q deactivate\n    deactivate\nend\n"@,
    ] + Seq::new(names.len(), |i: int| fish_save(names[i])) + seq![
        "set -gx PATH "@ + fish_quoted(a.bin_dir) + " $PATH\n"@,
    ] + Seq::new(a.vars.len(), |i: int| fish_set(a.vars[i].0, a.vars[i].1)) + seq![
        "set -gx UVR_PROJECT "@ + fish_quoted(a.project) + "\n"@,
        "function deactivate\n"@,
    ] + Seq::new(restored.len(), |i: int| fish_restore(restored[i])) + seq![
        fish_unset(marker()),
        "    set -e "@ + strings::join(saved_names(names), " "@) + "\n"@,
        "    functions -e deactivate\nend\n"@,
    ]
}

/// The activation for fish.
pub open spec fn fish_script(a: Activation) -> Seq<char> {
    strings::join(fish_lines(a), ""@)
}

/// The lines of an activation for PowerShell: a previous activation is undone, what is
/// there is saved, the environment is set, and a function that undoes all of it is
/// defined.
pub open spec fn ps_lines(a: Activation) -> Seq<Seq<char>> {
    let names = taken_over(a.vars);
    let restored = given_back(a.vars);
    seq![
        "# uvr activation for project "@ + a.project
            + " — generated by `uvr activate --emit powershell`.\n"@,
        "if (Test-Path Function:\\deactivate) { deactivate }\n"@,
    ] + Seq::new(names.len(), |i: int| ps_save(names[i])) + seq![
        "$env:PATH = "@ + ps_quoted(a.bin_dir) + " + '"@ + a.sep + "' + $env:PATH\n"@,
    ] + Seq::new(a.vars.len(), |i: int| ps_set(a.vars[i].0, a.vars[i].1)) + seq![
        "$env:UVR_PROJECT = "@ + ps_quoted(a.project) + "\n"@,
        "function global:deactivate {\n"@,
    ] + Seq::new(restored.len(), |i: int| ps_restore(restored[i])) + seq![
        ps_unset(marker()),
    ] + Seq::new(
        names.len(),
        |i: int| ps_clean(names[i]),
    ) + seq![
        "    Remove-Item Function:\\deactivate -ErrorAction SilentlyContinue\n}\n"@,
    ]
}

/// The activation for PowerShell.
pub open spec fn ps_script(a: Activation) -> Seq<char> {
    strings::join(ps_lines(a), ""@)
}

/// The lines of an activation for a shell. The POSIX shells share one script.
pub open spec fn script_lines(shell: ActivateShell, a: Activation) -> Seq<Seq<char>> {
    match shell {
        ActivateShell::Fish => fish_lines(a),
        ActivateShell::Powershell => ps_lines(a),
        _ => posix_lines(a),
    }
}

/// The activation for a shell.
pub open spec fn script_of(shell: ActivateShell, a: Activation) -> Seq<char> {
    strings::join(script_lines(shell, a), ""@)
}

/// The lines that undo a previous activation in a shell.
pub open spec fn guard_of(shell: ActivateShell) -> Seq<char> {
    match shell {
        ActivateShell::Fish => "if functions -q deactivate\n    deactivate\nend\n"@,
        ActivateShell::Powershell => "if (Test-Path Function:\\deactivate) { deactivate }\n"@,
        _ => "if command -v deactivate >/dev/null 2>&1; then deactivate; fi\n"@,
    }
}

/// What saves a variable in a shell.
pub open spec fn save_of(shell: ActivateShell, n: Seq<char>) -> Seq<char> {
    match shell {
        ActivateShell::Fish => fish_save(n),
        ActivateShell::Powershell => ps_save(n),
        _ => posix_save(n),
    }
}

/// What sets a variable in a shell.
pub open spec fn set_of(shell: ActivateShell, n: Seq<char>, v: Seq<char>) -> Seq<char> {
    match shell {
        ActivateShell::Fish => fish_set(n, v),
        ActivateShell::Powershell => ps_set(n, v),
        _ => posix_set(n, v),
    }
}

/// The line that saves a variable for POSIX shells: its value, and whether it is set.
fn write_posix_save(n: &str) -> (r: String)
    ensures
        r@ == posix_save(n@),
{
    let mut m = "UVR_OLD_".to_owned();
    m.append(n);
    m.append("=\"${");
    m.append(n);
    m.append("-}\"; UVR_OLD_");
    m.append(n);
    m.append("_SET=\"${");
    m.append(n);
    m.append("+1}\"; export UVR_OLD_");
    m.append(n);
    m.append(" UVR_OLD_");
    m.append(n);
    m.append("_SET\n");
    m
}

/// The line that restores a variable for POSIX shells.
fn write_posix_restore(n: &str) -> (r: String)
    ensures
        r@ == posix_restore(n@),
{
    let mut m = "    if [ -n \"${UVR_OLD_".to_owned();
    m.append(n);
    m.append("_SET-}\" ]; then ");
    m.append(n);
    m.append("=\"${UVR_OLD_");
    m.append(n);
    m.append("-}\"; export ");
    m.append(n);
    m.append("; else unset ");
    m.append(n);
    m.append("; fi\n");
    m
}

/// The line that unsets a variable for POSIX shells.
fn write_posix_unset(n: &str) -> (r: String)
    ensures
        r@ == posix_unset(n@),
{
    let mut m = "    unset ".to_owned();
    m.append(n);
    m.append("\n");
    m
}

/// The lines that save a variable for fish.
fn write_fish_save(n: &str) -> (r: String)
    ensures
        r@ == fish_save(n@),
{
    let mut m = "if set -q ".to_owned();
    m.append(n);
    m.append("\n    set -g UVR_OLD_");
    m.append(n);
    m.append(" $");
    m.append(n);
    m.append("\n    set -g UVR_OLD_");
    m.append(n);
    m.append("_SET 1\nelse\n    set -g UVR_OLD_");
    m.append(n);
    m.append("_SET ''\nend\n");
    m
}

/// The lines that restore a variable for fish.
fn write_fish_restore(n: &str) -> (r: String)
    ensures
        r@ == fish_restore(n@),
{
    let mut m = "    if test -n \"$UVR_OLD_".to_owned();
    m.append(n);
    m.append("_SET\"\n        set -gx ");
    m.append(n);
    m.append(" $UVR_OLD_");
    m.append(n);
    m.append("\n    else\n        set -e ");
    m.append(n);
    m.append("\n    end\n");
    m
}

/// The line that unsets a variable for fish.
fn write_fish_unset(n: &str) -> (r: String)
    ensures
        r@ == fish_unset(n@),
{
    let mut m = "    set -e ".to_owned();
    m.append(n);
    m.append("\n");
    m
}

/// The line that saves a variable for PowerShell.
fn write_ps_save(n: &str) -> (r: String)
    ensures
        r@ == ps_save(n@),
{
    let mut m = "if (Test-Path Env:\\".to_owned();
    m.append(n);
    m.append(") { $env:UVR_OLD_");
    m.append(n);
    m.append(" = $env:");
    m.append(n);
    m.append("; $env:UVR_OLD_");
    m.append(n);
    m.append("_SET = '1' } else { $env:UVR_OLD_");
    m.append(n);
    m.append("_SET = '' }\n");
    m
}

/// The line that restores a variable for PowerShell.
fn write_ps_restore(n: &str) -> (r: String)
    ensures
        r@ == ps_restore(n@),
{
    let mut m = "    if ($env:UVR_OLD_".to_owned();
    m.append(n);
    m.append("_SET) { $env:");
    m.append(n);
    m.append(" = $env:UVR_OLD_");
    m.append(n);
    m.append(" } else { Remove-Item Env:\\");
    m.append(n);
    m.append(" -ErrorAction SilentlyContinue }\n");
    m
}

/// The line that unsets a variable for PowerShell.
fn write_ps_unset(n: &str) -> (r: String)
    ensures
        r@ == ps_unset(n@),
{
    let mut m = "    Remove-Item Env:\\".to_owned();
    m.append(n);
    m.append(" -ErrorAction SilentlyContinue\n");
    m
}

/// The lines that drop what was saved of a variable for PowerShell.
fn write_ps_clean(n: &str) -> (r: String)
    ensures
        r@ == ps_clean(n@),
{
    let mut m = "    Remove-Item Env:\\UVR_OLD_".to_owned();
    m.append(n);
    m.append(" -ErrorAction SilentlyContinue\n    Remove-Item Env:\\UVR_OLD_");
    m.append(n);
    m.append("_SET -ErrorAction SilentlyContinue\n");
    m
}

/// The line that sets a variable for POSIX shells.
fn write_posix_set(n: &str, v: &str) -> (r: String)
    ensures
        r@ == posix_set(n@, v@),
{
    let mut m = n.to_owned();
    m.append("=");
    m.append(sh_quote(v).as_str());
    m.append("; export ");
    m.append(n);
    m.append("\n");
    m
}

/// The line that sets a variable for fish.
fn write_fish_set(n: &str, v: &str) -> (r: String)
    ensures
        r@ == fish_set(n@, v@),
{
    let mut m = "set -gx ".to_owned();
    m.append(n);
    m.append(" ");
    m.append(fish_quote(v).as_str());
    m.append("\n");
    m
}

/// The line that sets a variable for PowerShell.
fn write_ps_set(n: &str, v: &str) -> (r: String)
    ensures
        r@ == ps_set(n@, v@),
{
    let mut m = "$env:".to_owned();
    m.append(n);
    m.append(" = ");
    m.append(ps_quote(v).as_str());
    m.append("\n");
    m
}

/// A line about a variable.
#[derive(Clone, Copy, PartialEq, Eq, Structural)]
enum Line {
    PosixSave,
    PosixRestore,
    FishSave,
    FishRestore,
    PsSave,
    PsRestore,
    PsClean,
}

/// What a line says of a variable.
spec fn line_of(line: Line, n: Seq<char>) -> Seq<char> {
    match line {
        Line::PosixSave => posix_save(n),
        Line::PosixRestore => posix_restore(n),
        Line::FishSave => fish_save(n),
        Line::FishRestore => fish_restore(n),
        Line::PsSave => ps_save(n),
        Line::PsRestore => ps_restore(n),
        Line::PsClean => ps_clean(n),
    }
}

/// A line about each of the variables.
spec fn lines_about(line: Line, names: Seq<Seq<char>>) -> Seq<Seq<char>> {
    Seq::new(names.len(), |i: int| line_of(line, names[i]))
}

/// The line that sets each of the variables.
spec fn sets_of(shell: ActivateShell, vars: Seq<(Seq<char>, Seq<char>)>) -> Seq<Seq<char>> {
    Seq::new(vars.len(), |i: int| set_of(shell, vars[i].0, vars[i].1))
}

/// The lines about variables are those that the scripts are made of.
proof fn lemma_lines_about(names: Seq<Seq<char>>)
    ensures
        lines_about(Line::PosixSave, names) == Seq::new(
            names.len(),
            |i: int| posix_save(names[i]),
        ),
        lines_about(Line::PosixRestore, names) == Seq::new(
            names.len(),
            |i: int| posix_restore(names[i]),
        ),
        lines_about(Line::FishSave, names) == Seq::new(names.len(), |i: int| fish_save(names[i])),
        lines_about(Line::FishRestore, names) == Seq::new(
            names.len(),
            |i: int| fish_restore(names[i]),
        ),
        lines_about(Line::PsSave, names) == Seq::new(names.len(), |i: int| ps_save(names[i])),
        lines_about(Line::PsRestore, names) == Seq::new(
            names.len(),
            |i: int| ps_restore(names[i]),
        ),
        lines_about(Line::PsClean, names) == Seq::new(names.len(), |i: int| ps_clean(names[i])),
{
}

/// The lines that set variables are those that the scripts are made of.
proof fn lemma_sets_of(vars: Seq<(Seq<char>, Seq<char>)>)
    ensures
        sets_of(ActivateShell::Sh, vars) == Seq::new(
            vars.len(),
            |i: int| posix_set(vars[i].0, vars[i].1),
        ),
        sets_of(ActivateShell::Fish, vars) == Seq::new(
            vars.len(),
            |i: int| fish_set(vars[i].0, vars[i].1),
        ),
        sets_of(ActivateShell::Powershell, vars) == Seq::new(
            vars.len(),
            |i: int| ps_set(vars[i].0, vars[i].1),
        ),
{
}

/// Writes a line about a variable.
fn write_line(line: Line, n: &str) -> (r: String)
    ensures
        r@ == line_of(line, n@),
{
    match line {
        Line::PosixSave => write_posix_save(n),
        Line::PosixRestore => write_posix_restore(n),
        Line::FishSave => write_fish_save(n),
        Line::FishRestore => write_fish_restore(n),
        Line::PsSave => write_ps_save(n),
        Line::PsRestore => write_ps_restore(n),
        Line::PsClean => write_ps_clean(n),
    }
}

/// Adds a line.
fn push_line(out: &mut Vec<String>, line: String)
    ensures
        text::string_views(final(out)@) == text::string_views(old(out)@) + seq![line@],
{
    let ghost start = text::string_views(out@);
    out.push(line);
    assert(text::string_views(out@) =~= start + seq![line@]);
}

/// Adds a line about each of the variables.
fn push_lines(out: &mut Vec<String>, line: Line, names: &Vec<&'static str>)
    ensures
        text::string_views(final(out)@) == text::string_views(old(out)@) + lines_about(
            line,
            name_views(names@),
        ),
{
    let ghost start = text::string_views(out@);
    let mut i: usize = 0;
    while i < names.len()
        invariant
            i <= names@.len(),
            out@.len() == start.len() + i,
            forall|j: int| 0 <= j < start.len() ==> (#[trigger] out@[j])@ == start[j],
            forall|j: int|
                start.len() <= j < out@.len() ==> (#[trigger] out@[j])@ == line_of(
                    line,
                    names@[j - start.len()]@,
                ),
        decreases names@.len() - i,
    {
        out.push(write_line(line, names[i]));
        i += 1;
    }
    assert(text::string_views(out@) =~= start + lines_about(line, name_views(names@)));
}

/// Adds the line that sets each of the variables.
fn push_sets(out: &mut Vec<String>, shell: ActivateShell, vars: &Vec<(&'static str, String)>)
    ensures
        text::string_views(final(out)@) == text::string_views(old(out)@) + sets_of(
            shell,
            vars.deep_view(),
        ),
{
    let ghost start = text::string_views(out@);
    let mut i: usize = 0;
    while i < vars.len()
        invariant
            i <= vars@.len(),
            out@.len() == start.len() + i,
            forall|j: int| 0 <= j < start.len() ==> (#[trigger] out@[j])@ == start[j],
            forall|j: int|
                start.len() <= j < out@.len() ==> (#[trigger] out@[j])@ == set_of(
                    shell,
                    vars@[j - start.len()].0@,
                    vars@[j - start.len()].1@,
                ),
        decreases vars@.len() - i,
    {
        let name = vars[i].0;
        let value = vars[i].1.as_str();
        let line = match shell {
            ActivateShell::Fish => write_fish_set(name, value),
            ActivateShell::Powershell => write_ps_set(name, value),
            _ => write_posix_set(name, value),
        };
        out.push(line);
        i += 1;
    }
    assert(text::string_views(out@) =~= start + sets_of(shell, vars.deep_view()));
}

/// The names under which the variables are saved, with spaces between them.
fn write_saved_names(names: &Vec<&'static str>) -> (r: String)
    ensures
        r@ == strings::join(saved_names(name_views(names@)), " "@),
{
    let ghost all = saved_names(name_views(names@));
    let mut saved: Vec<String> = Vec::new();
    let mut i: usize = 0;
    while i < names.len()
        invariant
            i <= names@.len(),
            all == saved_names(name_views(names@)),
            saved@.len() == i * 2,
            forall|j: int| 0 <= j < saved@.len() ==> (#[trigger] saved@[j])@ == all[j],
        decreases names@.len() - i,
    {
        let mut value = "UVR_OLD_".to_owned();
        value.append(names[i]);
        let mut mark = "UVR_OLD_".to_owned();
        mark.append(names[i]);
        mark.append("_SET");
        assert(value@ == all[i * 2]);
        assert(mark@ == all[i * 2 + 1]);
        saved.push(value);
        saved.push(mark);
        i += 1;
    }
    assert(text::string_views(saved@) =~= all);
    text::join(saved.as_slice(), " ")
}

/// What the names are.
pub open spec fn name_views(names: Seq<&'static str>) -> Seq<Seq<char>> {
    Seq::new(names.len(), |i: int| names[i]@)
}

/// The names of the variables that undoing an activation gives their old values.
fn names_given_back(vars: &Vec<(&'static str, String)>) -> (r: Vec<&'static str>)
    ensures
        name_views(r@) == given_back(vars.deep_view()),
{
    let ghost all = given_back(vars.deep_view());
    let mut names: Vec<&'static str> = vec!["PATH"];
    let mut i: usize = 0;
    while i < vars.len()
        invariant
            i <= vars@.len(),
            all == given_back(vars.deep_view()),
            names@.len() == i + 1,
            forall|j: int| 0 <= j < names@.len() ==> (#[trigger] names@[j])@ == all[j],
        decreases vars@.len() - i,
    {
        names.push(vars[i].0);
        i += 1;
    }
    assert(name_views(names@) =~= all);
    names
}

/// The names of the variables that an activation takes over.
fn names_taken_over(vars: &Vec<(&'static str, String)>) -> (r: Vec<&'static str>)
    ensures
        name_views(r@) == taken_over(vars.deep_view()),
{
    let mut names = names_given_back(vars);
    let ghost before = name_views(names@);
    names.push("UVR_PROJECT");
    assert(name_views(names@) =~= before + seq![marker()]);
    names
}

/// What goes into an activation.
pub open spec fn activation(
    project: Seq<char>,
    sep: Seq<char>,
    bin_dir: Seq<char>,
    vars: Seq<(Seq<char>, Seq<char>)>,
) -> Activation {
    Activation { project, sep, bin_dir, vars }
}

/// Writes an activation for POSIX shells.
pub fn write_posix(
    project: &str,
    sep: &str,
    bin_dir: &str,
    vars: &Vec<(&'static str, String)>,
) -> (r: String)
    ensures
        r@ == posix_script(activation(project@, sep@, bin_dir@, vars.deep_view())),
{
    let ghost a = activation(project@, sep@, bin_dir@, vars.deep_view());
    let names = names_taken_over(vars);
    let restored = names_given_back(vars);
    proof {
        lemma_lines_about(name_views(names@));
        lemma_lines_about(name_views(restored@));
        lemma_sets_of(vars.deep_view());
    }
    let mut header = "# uvr activation for project ".to_owned();
    header.append(project);
    header.append(" — generated by `uvr activate --emit sh`.\n");
    let mut out: Vec<String> = Vec::new();
    assert(text::string_views(out@) =~= seq![]);
    push_line(&mut out, header);
    push_line(&mut out, "if command -v deactivate >/dev/null 2>&1; then deactivate; fi\n".to_owned());
    push_lines(&mut out, Line::PosixSave, &names);
    let mut path = "PATH=".to_owned();
    path.append(sh_quote(bin_dir).as_str());
    path.append("\"");
    path.append(sep);
    path.append("${PATH-}\"; export PATH\n");
    push_line(&mut out, path);
    push_sets(&mut out, ActivateShell::Sh, vars);
    let mut name = "UVR_PROJECT=".to_owned();
    name.append(sh_quote(project).as_str());
    name.append("; export UVR_PROJECT\n");
    push_line(&mut out, name);
    push_line(&mut out, "deactivate() {\n".to_owned());
    push_lines(&mut out, Line::PosixRestore, &restored);
    push_line(&mut out, write_posix_unset("UVR_PROJECT"));
    let mut unset = "    unset ".to_owned();
    unset.append(write_saved_names(&names).as_str());
    unset.append("\n");
    push_line(&mut out, unset);
    push_line(&mut out, "    unset -f deactivate\n".to_owned());
    push_line(&mut out, "}\n".to_owned());
    assert(text::string_views(out@) =~= posix_lines(a));
    text::join(out.as_slice(), "")
}

/// Writes an activation for fish.
pub fn write_fish(
    project: &str,
    sep: &str,
    bin_dir: &str,
    vars: &Vec<(&'static str, String)>,
) -> (r: String)
    ensures
        r@ == fish_script(activation(project@, sep@, bin_dir@, vars.deep_view())),
{
    let ghost a = activation(project@, sep@, bin_dir@, vars.deep_view());
    let names = names_taken_over(vars);
    let restored = names_given_back(vars);
    proof {
        lemma_lines_about(name_views(names@));
        lemma_lines_about(name_views(restored@));
        lemma_sets_of(vars.deep_view());
    }
    let mut header = "# uvr activation for project ".to_owned();
    header.append(project);
    header.append(" — generated by `uvr activate --emit fish`.\n");
    let mut out: Vec<String> = Vec::new();
    assert(text::string_views(out@) =~= seq![]);
    push_line(&mut out, header);
    push_line(&mut out, "if functions -q deactivate\n    deactivate\nend\n".to_owned());
    push_lines(&mut out, Line::FishSave, &names);
    let mut path = "set -gx PATH ".to_owned();
    path.append(fish_quote(bin_dir).as_str());
    path.append(" $PATH\n");
    push_line(&mut out, path);
    push_sets(&mut out, ActivateShell::Fish, vars);
    let mut name = "set -gx UVR_PROJECT ".to_owned();
    name.append(fish_quote(project).as_str());
    name.append("\n");
    push_line(&mut out, name);
    push_line(&mut out, "function deactivate\n".to_owned());
    push_lines(&mut out, Line::FishRestore, &restored);
    push_line(&mut out, write_fish_unset("UVR_PROJECT"));
    let mut erase = "    set -e ".to_owned();
    erase.append(write_saved_names(&names).as_str());
    erase.append("\n");
    push_line(&mut out, erase);
    push_line(&mut out, "    functions -e deactivate\nend\n".to_owned());
    assert(text::string_views(out@) =~= fish_lines(a));
    text::join(out.as_slice(), "")
}

/// Writes an activation for PowerShell.
pub fn write_powershell(
    project: &str,
    sep: &str,
    bin_dir: &str,
    vars: &Vec<(&'static str, String)>,
) -> (r: String)
    ensures
        r@ == ps_script(activation(project@, sep@, bin_dir@, vars.deep_view())),
{
    let ghost a = activation(project@, sep@, bin_dir@, vars.deep_view());
    let names = names_taken_over(vars);
    let restored = names_given_back(vars);
    proof {
        lemma_lines_about(name_views(names@));
        lemma_lines_about(name_views(restored@));
        lemma_sets_of(vars.deep_view());
    }
    let mut header = "# uvr activation for project ".to_owned();
    header.append(project);
    header.append(" — generated by `uvr activate --emit powershell`.\n");
    let mut out: Vec<String> = Vec::new();
    assert(text::string_views(out@) =~= seq![]);
    push_line(&mut out, header);
    push_line(&mut out, "if (Test-Path Function:\\deactivate) { deactivate }\n".to_owned());
    push_lines(&mut out, Line::PsSave, &names);
    let mut path = "$env:PATH = ".to_owned();
    path.append(ps_quote(bin_dir).as_str());
    path.append(" + '");
    path.append(sep);
    path.append("' + $env:PATH\n");
    push_line(&mut out, path);
    push_sets(&mut out, ActivateShell::Powershell, vars);
    let mut name = "$env:UVR_PROJECT = ".to_owned();
    name.append(ps_quote(project).as_str());
    name.append("\n");
    push_line(&mut out, name);
    push_line(&mut out, "function global:deactivate {\n".to_owned());
    push_lines(&mut out, Line::PsRestore, &restored);
    push_line(&mut out, write_ps_unset("UVR_PROJECT"));
    push_lines(&mut out, Line::PsClean, &names);
    push_line(
        &mut out,
        "    Remove-Item Function:\\deactivate -ErrorAction SilentlyContinue\n}\n".to_owned(),
    );
    assert(text::string_views(out@) =~= ps_lines(a));
    text::join(out.as_slice(), "")
}

/// What goes into the activation of a project.
pub open spec fn env_activation(
    project: Seq<char>,
    e: Environment,
    bin_dir: Seq<char>,
    lib_dir: Seq<char>,
) -> Activation {
    activation(project, r_env::path_sep_of(e.platform), bin_dir, r_env::variables(e, lib_dir))
}

/// What goes into the activation of a project on Unix.
pub open spec fn unix_activation(project: Seq<char>, e: Environment) -> Activation {
    env_activation(
        project,
        e,
        r_env::unix_bin_dir(e.r_binary),
        r_env::unix_lib_dir(e.r_binary),
    )
}

/// The script is an activation of a project for a shell, with the directories that
/// the system reads from the path of the binary.
pub open spec fn is_activation(
    shell: ActivateShell,
    project: Seq<char>,
    e: Environment,
    script: Seq<char>,
) -> bool {
    &&& exists|bin_dir: Seq<char>, lib_dir: Seq<char>|
        r_env::is_bin_dir(e.r_binary, bin_dir) && r_env::is_lib_dir(e.r_binary, lib_dir) && script
            == script_of(shell, #[trigger] env_activation(project, e, bin_dir, lib_dir))
    &&& e.platform == Platform::Unix ==> script == script_of(shell, unix_activation(project, e))
}

/// Writes the activation of a project for a shell, with the directory of the R binary
/// and that of R's own libraries.
pub fn write_script(
    shell: ActivateShell,
    project: &str,
    env: &REnv,
    bin_dir: &str,
    lib_dir: &str,
) -> (r: String)
    ensures
        r@ == script_of(shell, env_activation(project@, env.deep_view(), bin_dir@, lib_dir@)),
{
    let vars = env.vars_with(lib_dir);
    let sep = r_env::path_sep(env.platform);
    match shell {
        ActivateShell::Sh => write_posix(project, sep, bin_dir, &vars),
        ActivateShell::Bash => write_posix(project, sep, bin_dir, &vars),
        ActivateShell::Zsh => write_posix(project, sep, bin_dir, &vars),
        ActivateShell::Fish => write_fish(project, sep, bin_dir, &vars),
        ActivateShell::Powershell => write_powershell(project, sep, bin_dir, &vars),
    }
}

/// The activation of a project for a shell: [`write_script`] with the directories that
/// [`REnv::r_bin_dir`] and [`REnv::r_lib_dir`] give.
pub fn emit_script(shell: ActivateShell, project: &str, env: &REnv) -> (r: String)
    ensures
        is_activation(shell, project@, env.deep_view(), r@),
{
    let bin_dir = env.r_bin_dir();
    let lib_dir = env.r_lib_dir();
    write_script(shell, project, env, bin_dir.as_str(), lib_dir.as_str())
}

/// The activation of a project for POSIX shells.
pub fn emit_posix(project: &str, env: &REnv) -> (r: String)
    ensures
        is_activation(ActivateShell::Sh, project@, env.deep_view(), r@),
{
    emit_script(ActivateShell::Sh, project, env)
}

/// The activation of a project for fish.
pub fn emit_fish(project: &str, env: &REnv) -> (r: String)
    ensures
        is_activation(ActivateShell::Fish, project@, env.deep_view(), r@),
{
    emit_script(ActivateShell::Fish, project, env)
}

/// The activation of a project for PowerShell.
pub fn emit_powershell(project: &str, env: &REnv) -> (r: String)
    ensures
        is_activation(ActivateShell::Powershell, project@, env.deep_view(), r@),
{
    emit_script(ActivateShell::Powershell, project, env)
}

/// The variables that the activation of a project takes over.
pub open spec fn managed_names() -> Seq<Seq<char>> {
    seq![
        "PATH"@,
        "R_LIBS_USER"@,
        "R_LIBS_SITE"@,
        "R_LIBS"@,
        "DYLD_LIBRARY_PATH"@,
        "LD_LIBRARY_PATH"@,
        "R_ENVIRON"@,
        "R_ENVIRON_USER"@,
        "UVR_PROJECT"@,
    ]
}

/// The variables that the activation of a project takes over, whatever the project:
/// those of the environment that R is run in, the search path and the name of the
/// project.
pub proof fn law_managed_names(
    project: Seq<char>,
    e: Environment,
    bin_dir: Seq<char>,
    lib_dir: Seq<char>,
)
    ensures
        taken_over(env_activation(project, e, bin_dir, lib_dir).vars) == managed_names(),
{
    let t = taken_over(r_env::variables(e, lib_dir));
    assert(t =~= managed_names());
}

/// The variables that an activation takes over.
pub fn managed_vars(env: &REnv) -> (r: Vec<&'static str>)
    ensures
        name_views(r@) == managed_names(),
{
    let vars = env.vars();
    proof {
        let e = env.deep_view();
        let lib_dir = choose|lib_dir: Seq<char>|
            vars.deep_view() == #[trigger] r_env::variables(e, lib_dir);
        law_managed_names(seq![], e, seq![], lib_dir);
    }
    names_taken_over(&vars)
}

/// The activations of a project for the POSIX shells are the same script, whatever
/// goes into them.
pub proof fn law_posix_shells_share_a_script(a: Activation)
    ensures
        script_of(ActivateShell::Sh, a) == posix_script(a),
        script_of(ActivateShell::Bash, a) == posix_script(a),
        script_of(ActivateShell::Zsh, a) == posix_script(a),
{
}

/// Every shell manages the same variables, on every system and whatever directories
/// the system reads from the path of the binary. A script first undoes a previous
/// activation. Then it saves exactly the managed variables, one after another, puts the
/// directory of the binary on the search path, and sets each variable of the
/// environment that R is run in to its value, quoted as the shell needs it.
pub proof fn law_every_shell_manages_the_same_variables(
    shell: ActivateShell,
    project: Seq<char>,
    e: Environment,
    bin_dir: Seq<char>,
    lib_dir: Seq<char>,
)
    ensures
        ({
            let a = env_activation(project, e, bin_dir, lib_dir);
            let lines = script_lines(shell, a);
            let names = managed_names();
            let vars = r_env::variables(e, lib_dir);
            let set = names.len() as int + 3;
            &&& script_of(shell, a) == strings::join(lines, ""@)
            &&& lines[1] == guard_of(shell)
            &&& lines.subrange(2, set - 1) == Seq::new(
                names.len(),
                |i: int| save_of(shell, names[i]),
            )
            &&& lines.subrange(set, set + vars.len()) == Seq::new(
                vars.len(),
                |i: int| set_of(shell, vars[i].0, vars[i].1),
            )
        }),
{
    let a = env_activation(project, e, bin_dir, lib_dir);
    let lines = script_lines(shell, a);
    let names = managed_names();
    let vars = r_env::variables(e, lib_dir);
    let set = names.len() as int + 3;
    law_managed_names(project, e, bin_dir, lib_dir);
    assert(lines.subrange(2, set - 1) =~= Seq::new(
        names.len(),
        |i: int| save_of(shell, names[i]),
    ));
    assert(lines.subrange(set, set + vars.len()) =~= Seq::new(
        vars.len(),
        |i: int| set_of(shell, vars[i].0, vars[i].1),
    ));
}

/// Every variable that an activation takes over is saved by it. The function that it
/// defines gives each of them its old value but for the name of the project, which it
/// unsets. So it is in every shell.
pub proof fn law_every_variable_is_saved_and_restored(a: Activation, i: int)
    requires
        0 <= i < taken_over(a.vars).len(),
    ensures
        ({
            let n = taken_over(a.vars)[i];
            &&& strings::contains_text(posix_script(a), posix_save(n))
            &&& strings::contains_text(fish_script(a), fish_save(n))
            &&& strings::contains_text(ps_script(a), ps_save(n))
        }),
        i < given_back(a.vars).len() ==> {
            let n = given_back(a.vars)[i];
            &&& strings::contains_text(posix_script(a), posix_restore(n))
            &&& strings::contains_text(fish_script(a), fish_restore(n))
            &&& strings::contains_text(ps_script(a), ps_restore(n))
        },
        i == given_back(a.vars).len() ==> {
            let n = taken_over(a.vars)[i];
            &&& n == marker()
            &&& strings::contains_text(posix_script(a), posix_unset(n))
            &&& strings::contains_text(fish_script(a), fish_unset(n))
            &&& strings::contains_text(ps_script(a), ps_unset(n))
        },
{
    let n = taken_over(a.vars)[i];
    let count = taken_over(a.vars).len() as int;
    let saved = 2 + i;
    let undone = 2 + count + 1 + a.vars.len() + 2 + i;
    assert(posix_lines(a)[saved] == posix_save(n));
    assert(fish_lines(a)[saved] == fish_save(n));
    assert(ps_lines(a)[saved] == ps_save(n));
    if i < given_back(a.vars).len() {
        assert(n == given_back(a.vars)[i]);
        assert(posix_lines(a)[undone] == posix_restore(n));
        assert(fish_lines(a)[undone] == fish_restore(n));
        assert(ps_lines(a)[undone] == ps_restore(n));
    } else {
        assert(posix_lines(a)[undone] == posix_unset(n));
        assert(fish_lines(a)[undone] == fish_unset(n));
        assert(ps_lines(a)[undone] == ps_unset(n));
    }
    strings::lemma_join_contains(posix_lines(a), ""@, saved);
    strings::lemma_join_contains(posix_lines(a), ""@, undone);
    strings::lemma_join_contains(fish_lines(a), ""@, saved);
    strings::lemma_join_contains(fish_lines(a), ""@, undone);
    strings::lemma_join_contains(ps_lines(a), ""@, saved);
    strings::lemma_join_contains(ps_lines(a), ""@, undone);
}

/// Every variable of the environment that R is run in is set by an activation, to the
/// same value, in every shell.
pub proof fn law_every_variable_is_set(a: Activation, i: int)
    requires
        0 <= i < a.vars.len(),
    ensures
        strings::contains_text(posix_script(a), posix_set(a.vars[i].0, a.vars[i].1)),
        strings::contains_text(fish_script(a), fish_set(a.vars[i].0, a.vars[i].1)),
        strings::contains_text(ps_script(a), ps_set(a.vars[i].0, a.vars[i].1)),
{
    let count = taken_over(a.vars).len() as int;
    let at = 2 + count + 1 + i;
    assert(posix_lines(a)[at] == posix_set(a.vars[i].0, a.vars[i].1));
    assert(fish_lines(a)[at] == fish_set(a.vars[i].0, a.vars[i].1));
    assert(ps_lines(a)[at] == ps_set(a.vars[i].0, a.vars[i].1));
    strings::lemma_join_contains(posix_lines(a), ""@, at);
    strings::lemma_join_contains(fish_lines(a), ""@, at);
    strings::lemma_join_contains(ps_lines(a), ""@, at);
}

/// A previous activation is undone before anything is saved or set, in every shell.
pub proof fn law_previous_activation_is_undone_first(a: Activation)
    ensures
        posix_lines(a)[1]
            == "if command -v deactivate >/dev/null 2>&1; then deactivate; fi\n"@,
        fish_lines(a)[1] == "if functions -q deactivate\n    deactivate\nend\n"@,
        ps_lines(a)[1] == "if (Test-Path Function:\\deactivate) { deactivate }\n"@,
{
}

/// What a POSIX shell reads of a word, within single quotes or outside of them.
/// Outside of them only quotes and escaped characters go on with the word.
pub open spec fn sh_read(s: Seq<char>, quoted: bool) -> Option<Seq<char>>
    decreases s.len(),
{
    if s.len() == 0 {
        if quoted {
            None
        } else {
            Some(seq![])
        }
    } else if s[0] == '\'' {
        sh_read(s.skip(1), !quoted)
    } else if quoted {
        prepended(s[0], sh_read(s.skip(1), true))
    } else if s[0] == '\\' && s.len() > 1 {
        prepended(s[1], sh_read(s.skip(2), false))
    } else {
        None
    }
}

/// A character and what is read after it.
pub open spec fn prepended(c: char, rest: Option<Seq<char>>) -> Option<Seq<char>> {
    match rest {
        Some(t) => Some(seq![c] + t),
        None => None,
    }
}

/// What fish reads of a text that a single quote has opened, up to the quote that
/// closes it at the end.
pub open spec fn fish_read(s: Seq<char>) -> Option<Seq<char>>
    decreases s.len(),
{
    if s.len() == 0 {
        None
    } else if s[0] == '\'' {
        if s.len() == 1 {
            Some(seq![])
        } else {
            None
        }
    } else if s[0] == '\\' && s.len() > 1 && (s[1] == '\\' || s[1] == '\'') {
        prepended(s[1], fish_read(s.skip(2)))
    } else {
        prepended(s[0], fish_read(s.skip(1)))
    }
}

/// What PowerShell reads of a text that a single quote has opened, up to the quote
/// that closes it at the end.
pub open spec fn ps_read(s: Seq<char>) -> Option<Seq<char>>
    decreases s.len(),
{
    if s.len() == 0 {
        None
    } else if s[0] == '\'' {
        if s.len() == 1 {
            Some(seq![])
        } else if s[1] == '\'' {
            prepended('\'', ps_read(s.skip(2)))
        } else {
            None
        }
    } else {
        prepended(s[0], ps_read(s.skip(1)))
    }
}

/// What is read of a quoted text is the text, and what follows.
proof fn lemma_sh_read(s: Seq<char>, end: Seq<char>)
    ensures
        sh_read(strings::replace(s, '\'', "'\\''"@) + end, true) == (match sh_read(end, true) {
            Some(t) => Some(s + t),
            None => None,
        }),
    decreases s.len(),
{
    let with = "'\\''"@;
    reveal_strlit("'\\''");
    let whole = strings::replace(s, '\'', with) + end;
    if s.len() == 0 {
        assert(whole =~= end);
        if let Some(t) = sh_read(end, true) {
            assert(s + t =~= t);
        }
    } else {
        strings::lemma_replace_front(s, '\'', with);
        let rest = strings::replace(s.skip(1), '\'', with) + end;
        lemma_sh_read(s.skip(1), end);
        if s[0] == '\'' {
            assert(whole =~= seq!['\'', '\\', '\'', '\''] + rest);
            let a = whole.skip(1);
            assert(a[0] == '\\' && a[1] == '\'');
            let b = a.skip(2);
            assert(b[0] == '\'');
            assert(b.skip(1) =~= rest);
            assert(sh_read(b, false) == sh_read(rest, true));
            assert(sh_read(a, false) == prepended('\'', sh_read(b, false)));
            assert(sh_read(whole, true) == sh_read(a, false));
        } else {
            assert(whole =~= seq![s[0]] + rest);
            assert(whole.skip(1) =~= rest);
        }
        if let Some(t) = sh_read(end, true) {
            assert(seq![s[0]] + (s.skip(1) + t) =~= s + t);
        }
    }
}

/// A POSIX shell reads a quoted value as the one word that the value is.
pub proof fn law_sh_quoting_is_undone(s: Seq<char>)
    ensures
        sh_read(sh_quoted(s), false) == Some(s),
{
    reveal_strlit("'");
    let q = sh_quoted(s);
    let end = seq!['\''];
    assert(q.skip(1) =~= strings::replace(s, '\'', "'\\''"@) + end);
    lemma_sh_read(s, end);
    assert(end.skip(1) =~= seq![]);
    assert(sh_read(end.skip(1), false) == Some(Seq::<char>::empty()));
    assert(s + Seq::<char>::empty() =~= s);
}

/// What fish reads of a quoted text and the closing quote is the text.
proof fn lemma_fish_read(s: Seq<char>)
    ensures
        fish_read(
            strings::replace(strings::replace(s, '\\', "\\\\"@), '\'', "\\'"@) + seq!['\''],
        ) == Some(s),
    decreases s.len(),
{
    let slash = "\\\\"@;
    let quote = "\\'"@;
    reveal_strlit("\\\\");
    reveal_strlit("\\'");
    let inner = strings::replace(s, '\\', slash);
    let whole = strings::replace(inner, '\'', quote) + seq!['\''];
    if s.len() == 0 {
        assert(whole =~= seq!['\'']);
        assert(Seq::<char>::empty() =~= s);
    } else {
        let rest_inner = strings::replace(s.skip(1), '\\', slash);
        let rest = strings::replace(rest_inner, '\'', quote) + seq!['\''];
        strings::lemma_replace_front(s, '\\', slash);
        lemma_fish_read(s.skip(1));
        strings::lemma_replace_front(inner, '\'', quote);
        assert(seq![s[0]] + s.skip(1) =~= s);
        if s[0] == '\\' {
            assert(inner =~= seq!['\\', '\\'] + rest_inner);
            let one = inner.skip(1);
            strings::lemma_replace_front(one, '\'', quote);
            assert(one.skip(1) =~= rest_inner);
            assert(whole =~= seq!['\\', '\\'] + rest);
            assert(whole.skip(2) =~= rest);
        } else {
            assert(inner =~= seq![s[0]] + rest_inner);
            assert(inner.skip(1) =~= rest_inner);
            if s[0] == '\'' {
                assert(whole =~= seq!['\\', '\''] + rest);
                assert(whole.skip(2) =~= rest);
            } else {
                assert(whole =~= seq![s[0]] + rest);
                assert(whole.skip(1) =~= rest);
            }
        }
    }
}

/// fish reads a quoted value as the value.
pub proof fn law_fish_quoting_is_undone(s: Seq<char>)
    ensures
        fish_quoted(s).len() > 0,
        fish_quoted(s)[0] == '\'',
        fish_read(fish_quoted(s).skip(1)) == Some(s),
{
    reveal_strlit("'");
    lemma_fish_read(s);
    assert(fish_quoted(s).skip(1) =~= strings::replace(
        strings::replace(s, '\\', "\\\\"@),
        '\'',
        "\\'"@,
    ) + seq!['\'']);
}

/// What PowerShell reads of a quoted text and the closing quote is the text.
proof fn lemma_ps_read(s: Seq<char>)
    ensures
        ps_read(strings::replace(s, '\'', "''"@) + seq!['\'']) == Some(s),
    decreases s.len(),
{
    let with = "''"@;
    reveal_strlit("''");
    let whole = strings::replace(s, '\'', with) + seq!['\''];
    if s.len() == 0 {
        assert(whole =~= seq!['\'']);
        assert(Seq::<char>::empty() =~= s);
    } else {
        strings::lemma_replace_front(s, '\'', with);
        let rest = strings::replace(s.skip(1), '\'', with) + seq!['\''];
        lemma_ps_read(s.skip(1));
        assert(seq![s[0]] + s.skip(1) =~= s);
        if s[0] == '\'' {
            assert(whole =~= seq!['\'', '\''] + rest);
            assert(whole.skip(2) =~= rest);
        } else {
            assert(whole =~= seq![s[0]] + rest);
            assert(whole.skip(1) =~= rest);
        }
    }
}

/// PowerShell reads a quoted value as the value.
pub proof fn law_ps_quoting_is_undone(s: Seq<char>)
    ensures
        ps_quoted(s).len() > 0,
        ps_quoted(s)[0] == '\'',
        ps_read(ps_quoted(s).skip(1)) == Some(s),
{
    reveal_strlit("'");
    lemma_ps_read(s);
    assert(ps_quoted(s).skip(1) =~= strings::replace(s, '\'', "''"@) + seq!['\'']);
}

/// The script for POSIX shells.
pub const SHIM_SH_BODY: &'static str = r#"# uvr project environment — source this file to activate:
#
#     source .uvr/activate
#
# Generated by uvr; do not edit. This file contains no paths: it asks the
# uvr binary to recompute the environment on every activation, so changing
# the project's R version never leaves it stale.
if ! command -v uvr >/dev/null 2>&1; then
    echo "uvr: not found on PATH — cannot activate this project." >&2
else
    # Only eval on success, so a failed resolve (no project, no R) leaves
    # the shell untouched instead of half-activated.
    __uvr_activate_out="$(uvr activate --emit sh)" && eval "$__uvr_activate_out"
    unset __uvr_activate_out
fi
"#;

/// The script for fish.
pub const SHIM_FISH_BODY: &'static str = r#"# uvr project environment — source this file to activate:
#
#     source .uvr/activate.fish
#
# Generated by uvr; do not edit. Contains no paths: the environment is
# recomputed by the uvr binary on every activation.
if not command -q uvr
    echo "uvr: not found on PATH — cannot activate this project." >&2
else
    # Only eval on success, so a failed resolve leaves the shell untouched.
    set -l __uvr_activate_out (uvr activate --emit fish | string collect)
    if test $status -eq 0
        eval $__uvr_activate_out
    end
end
"#;

/// The script for PowerShell.
pub const SHIM_PS1_BODY: &'static str = r#"# uvr project environment — dot-source this file to activate:
#
#     . .uvr/activate.ps1
#
# Generated by uvr; do not edit. Contains no paths: the environment is
# recomputed by the uvr binary on every activation.
if (-not (Get-Command uvr -ErrorAction SilentlyContinue)) {
    Write-Error "uvr: not found on PATH — cannot activate this project."
} else {
    # Only invoke on success, so a failed resolve leaves the shell untouched.
    $uvrActivateOut = & uvr activate --emit powershell
    if ($LASTEXITCODE -eq 0) {
        Invoke-Expression ($uvrActivateOut -join "`n")
    }
}
"#;

/// The scripts that are put beside a project, by their names.
pub open spec fn shim_files() -> Seq<(Seq<char>, Seq<char>)> {
    seq![
        (SHIM_SH@, SHIM_SH_BODY@),
        (SHIM_FISH@, SHIM_FISH_BODY@),
        (SHIM_PS1@, SHIM_PS1_BODY@),
    ]
}

/// The scripts that are put beside a project, by their names. There is one for every
/// shell: a project is shared by people with different ones.
pub fn shims() -> (r: Vec<(&'static str, &'static str)>)
    ensures
        r.deep_view() == shim_files(),
{
    let r: Vec<(&'static str, &'static str)> = vec![
        (SHIM_SH, SHIM_SH_BODY),
        (SHIM_FISH, SHIM_FISH_BODY),
        (SHIM_PS1, SHIM_PS1_BODY),
    ];
    assert(r.deep_view() =~= shim_files());
    r
}

/// What is told to someone who asks how to activate a project.
pub open spec fn hint_text() -> Seq<char> {
    "Activate this project with:\n\n    source "@ + DOT_UVR_DIR@ + "/"@ + SHIM_SH@
        + "\n\nThen run `deactivate` to restore your shell."@
}

/// What is told to someone who asks how to activate a project.
pub fn activation_hint() -> (r: String)
    ensures
        r@ == hint_text(),
{
    let mut m = "Activate this project with:\n\n    source ".to_owned();
    m.append(DOT_UVR_DIR);
    m.append("/");
    m.append(SHIM_SH);
    m.append("\n\nThen run `deactivate` to restore your shell.");
    m
}

/// In POSIX shells saving a variable keeps its value, and whether it is set, under two names
/// that are exported.
pub proof fn law_posix_save_line(n: Seq<char>)
    ensures
        strings::contains_text(posix_save(n), "UVR_OLD_"@ + n + "=\"${"@ + n + "-}\""@),
        strings::contains_text(posix_save(n), "UVR_OLD_"@ + n + "_SET=\"${"@ + n + "+1}\""@),
        strings::contains_text(posix_save(n), "export UVR_OLD_"@ + n + " UVR_OLD_"@ + n + "_SET"@),
{
    reveal_strlit("\n");
    reveal_strlit(" UVR_OLD_");
    reveal_strlit("+1}\"");
    reveal_strlit("+1}\"; ");
    reveal_strlit("+1}\"; export UVR_OLD_");
    reveal_strlit("-}\"");
    reveal_strlit("-}\"; ");
    reveal_strlit("-}\"; UVR_OLD_");
    reveal_strlit("; UVR_OLD_");
    reveal_strlit("; export UVR_OLD_");
    reveal_strlit("=\"${");
    reveal_strlit("UVR_OLD_");
    reveal_strlit("_SET");
    reveal_strlit("_SET\n");
    reveal_strlit("_SET=\"${");
    reveal_strlit("export UVR_OLD_");
    let line = posix_save(n);
    let pre0 = Seq::<char>::empty();
    let part0 = "UVR_OLD_"@ + n + "=\"${"@ + n + "-}\""@;
    let post0 = "; UVR_OLD_"@ + n + "_SET=\"${"@ + n + "+1}\"; export UVR_OLD_"@ + n
        + " UVR_OLD_"@ + n + "_SET\n"@;
    assert(line =~= pre0 + part0 + post0);
    strings::lemma_contains_middle(pre0, part0, post0);
    let pre1 = "UVR_OLD_"@ + n + "=\"${"@ + n + "-}\"; "@;
    let part1 = "UVR_OLD_"@ + n + "_SET=\"${"@ + n + "+1}\""@;
    let post1 = "; export UVR_OLD_"@ + n + " UVR_OLD_"@ + n + "_SET\n"@;
    assert(line =~= pre1 + part1 + post1);
    strings::lemma_contains_middle(pre1, part1, post1);
    let pre2 = "UVR_OLD_"@ + n + "=\"${"@ + n + "-}\"; UVR_OLD_"@ + n + "_SET=\"${"@ + n
        + "+1}\"; "@;
    let part2 = "export UVR_OLD_"@ + n + " UVR_OLD_"@ + n + "_SET"@;
    let post2 = "\n"@;
    assert(line =~= pre2 + part2 + post2);
    strings::lemma_contains_middle(pre2, part2, post2);
}

/// In POSIX shells restoring a variable gives it the value that was kept where it was set,
/// and unsets it where it was not.
pub proof fn law_posix_restore_line(n: Seq<char>)
    ensures
        strings::contains_text(
            posix_restore(n),
            "if [ -n \"${UVR_OLD_"@ + n + "_SET-}\" ]; then "@,
        ),
        strings::contains_text(
            posix_restore(n),
            "then "@ + n + "=\"${UVR_OLD_"@ + n + "-}\"; export "@ + n + ";"@,
        ),
        strings::contains_text(posix_restore(n), "else unset "@ + n + "; fi"@),
{
    reveal_strlit("\n");
    reveal_strlit("    ");
    reveal_strlit("    if [ -n \"${UVR_OLD_");
    reveal_strlit(" else unset ");
    reveal_strlit("-}\"; export ");
    reveal_strlit(";");
    reveal_strlit("; ");
    reveal_strlit("; else unset ");
    reveal_strlit("; fi");
    reveal_strlit("; fi\n");
    reveal_strlit("=\"${UVR_OLD_");
    reveal_strlit("_SET-}\" ]; ");
    reveal_strlit("_SET-}\" ]; then ");
    reveal_strlit("else unset ");
    reveal_strlit("if [ -n \"${UVR_OLD_");
    reveal_strlit("then ");
    let line = posix_restore(n);
    let pre0 = "    "@;
    let part0 = "if [ -n \"${UVR_OLD_"@ + n + "_SET-}\" ]; then "@;
    let post0 = n + "=\"${UVR_OLD_"@ + n + "-}\"; export "@ + n + "; else unset "@ + n + "; fi\n"@;
    assert(line =~= pre0 + part0 + post0);
    strings::lemma_contains_middle(pre0, part0, post0);
    let pre1 = "    if [ -n \"${UVR_OLD_"@ + n + "_SET-}\" ]; "@;
    let part1 = "then "@ + n + "=\"${UVR_OLD_"@ + n + "-}\"; export "@ + n + ";"@;
    let post1 = " else unset "@ + n + "; fi\n"@;
    assert(line =~= pre1 + part1 + post1);
    strings::lemma_contains_middle(pre1, part1, post1);
    let pre2 = "    if [ -n \"${UVR_OLD_"@ + n + "_SET-}\" ]; then "@ + n + "=\"${UVR_OLD_"@ + n
        + "-}\"; export "@ + n + "; "@;
    let part2 = "else unset "@ + n + "; fi"@;
    let post2 = "\n"@;
    assert(line =~= pre2 + part2 + post2);
    strings::lemma_contains_middle(pre2, part2, post2);
}

/// In POSIX shells unsetting a variable unsets that variable.
pub proof fn law_posix_unset_line(n: Seq<char>)
    ensures
        strings::contains_text(posix_unset(n), "unset "@ + n + "\n"@),
{
    reveal_strlit("\n");
    reveal_strlit("    ");
    reveal_strlit("    unset ");
    reveal_strlit("unset ");
    let line = posix_unset(n);
    let pre0 = "    "@;
    let part0 = "unset "@ + n + "\n"@;
    let post0 = Seq::<char>::empty();
    assert(line =~= pre0 + part0 + post0);
    strings::lemma_contains_middle(pre0, part0, post0);
}

/// In fish saving a variable keeps its value, and whether it is set, under two names.
pub proof fn law_fish_save_line(n: Seq<char>)
    ensures
        strings::contains_text(fish_save(n), "if set -q "@ + n + "\n"@),
        strings::contains_text(fish_save(n), "set -g UVR_OLD_"@ + n + " $"@ + n + "\n"@),
        strings::contains_text(fish_save(n), "set -g UVR_OLD_"@ + n + "_SET 1\nelse\n"@),
        strings::contains_text(fish_save(n), "else\n    set -g UVR_OLD_"@ + n + "_SET ''\nend\n"@),
{
    reveal_strlit("\n");
    reveal_strlit("\n    ");
    reveal_strlit("\n    set -g UVR_OLD_");
    reveal_strlit("    set -g UVR_OLD_");
    reveal_strlit(" $");
    reveal_strlit("_SET ''\nend\n");
    reveal_strlit("_SET 1\n");
    reveal_strlit("_SET 1\nelse\n");
    reveal_strlit("_SET 1\nelse\n    set -g UVR_OLD_");
    reveal_strlit("else\n    set -g UVR_OLD_");
    reveal_strlit("if set -q ");
    reveal_strlit("set -g UVR_OLD_");
    let line = fish_save(n);
    let pre0 = Seq::<char>::empty();
    let part0 = "if set -q "@ + n + "\n"@;
    let post0 = "    set -g UVR_OLD_"@ + n + " $"@ + n + "\n    set -g UVR_OLD_"@ + n
        + "_SET 1\nelse\n    set -g UVR_OLD_"@ + n + "_SET ''\nend\n"@;
    assert(line =~= pre0 + part0 + post0);
    strings::lemma_contains_middle(pre0, part0, post0);
    let pre1 = "if set -q "@ + n + "\n    "@;
    let part1 = "set -g UVR_OLD_"@ + n + " $"@ + n + "\n"@;
    let post1 = "    set -g UVR_OLD_"@ + n + "_SET 1\nelse\n    set -g UVR_OLD_"@ + n
        + "_SET ''\nend\n"@;
    assert(line =~= pre1 + part1 + post1);
    strings::lemma_contains_middle(pre1, part1, post1);
    let pre2 = "if set -q "@ + n + "\n    set -g UVR_OLD_"@ + n + " $"@ + n + "\n    "@;
    let part2 = "set -g UVR_OLD_"@ + n + "_SET 1\nelse\n"@;
    let post2 = "    set -g UVR_OLD_"@ + n + "_SET ''\nend\n"@;
    assert(line =~= pre2 + part2 + post2);
    strings::lemma_contains_middle(pre2, part2, post2);
    let pre3 = "if set -q "@ + n + "\n    set -g UVR_OLD_"@ + n + " $"@ + n
        + "\n    set -g UVR_OLD_"@ + n + "_SET 1\n"@;
    let part3 = "else\n    set -g UVR_OLD_"@ + n + "_SET ''\nend\n"@;
    let post3 = Seq::<char>::empty();
    assert(line =~= pre3 + part3 + post3);
    strings::lemma_contains_middle(pre3, part3, post3);
}

/// In fish restoring a variable gives it the value that was kept where it was set, and
/// erases it where it was not.
pub proof fn law_fish_restore_line(n: Seq<char>)
    ensures
        strings::contains_text(fish_restore(n), "if test -n \"$UVR_OLD_"@ + n + "_SET\"\n"@),
        strings::contains_text(fish_restore(n), "set -gx "@ + n + " $UVR_OLD_"@ + n + "\n"@),
        strings::contains_text(fish_restore(n), "else\n        set -e "@ + n + "\n"@),
{
    reveal_strlit("\n");
    reveal_strlit("\n    ");
    reveal_strlit("\n    else\n        set -e ");
    reveal_strlit("\n    end\n");
    reveal_strlit("    ");
    reveal_strlit("        set -gx ");
    reveal_strlit("    else\n        set -e ");
    reveal_strlit("    end\n");
    reveal_strlit("    if test -n \"$UVR_OLD_");
    reveal_strlit(" $UVR_OLD_");
    reveal_strlit("_SET\"\n");
    reveal_strlit("_SET\"\n        ");
    reveal_strlit("_SET\"\n        set -gx ");
    reveal_strlit("else\n        set -e ");
    reveal_strlit("if test -n \"$UVR_OLD_");
    reveal_strlit("set -gx ");
    let line = fish_restore(n);
    let pre0 = "    "@;
    let part0 = "if test -n \"$UVR_OLD_"@ + n + "_SET\"\n"@;
    let post0 = "        set -gx "@ + n + " $UVR_OLD_"@ + n + "\n    else\n        set -e "@ + n
        + "\n    end\n"@;
    assert(line =~= pre0 + part0 + post0);
    strings::lemma_contains_middle(pre0, part0, post0);
    let pre1 = "    if test -n \"$UVR_OLD_"@ + n + "_SET\"\n        "@;
    let part1 = "set -gx "@ + n + " $UVR_OLD_"@ + n + "\n"@;
    let post1 = "    else\n        set -e "@ + n + "\n    end\n"@;
    assert(line =~= pre1 + part1 + post1);
    strings::lemma_contains_middle(pre1, part1, post1);
    let pre2 = "    if test -n \"$UVR_OLD_"@ + n + "_SET\"\n        set -gx "@ + n + " $UVR_OLD_"@
        + n + "\n    "@;
    let part2 = "else\n        set -e "@ + n + "\n"@;
    let post2 = "    end\n"@;
    assert(line =~= pre2 + part2 + post2);
    strings::lemma_contains_middle(pre2, part2, post2);
}

/// In fish unsetting a variable erases that variable.
pub proof fn law_fish_unset_line(n: Seq<char>)
    ensures
        strings::contains_text(fish_unset(n), "set -e "@ + n + "\n"@),
{
    reveal_strlit("\n");
    reveal_strlit("    ");
    reveal_strlit("    set -e ");
    reveal_strlit("set -e ");
    let line = fish_unset(n);
    let pre0 = "    "@;
    let part0 = "set -e "@ + n + "\n"@;
    let post0 = Seq::<char>::empty();
    assert(line =~= pre0 + part0 + post0);
    strings::lemma_contains_middle(pre0, part0, post0);
}

/// In PowerShell saving a variable keeps its value, and whether it is set, under two names.
pub proof fn law_ps_save_line(n: Seq<char>)
    ensures
        strings::contains_text(ps_save(n), "if (Test-Path Env:\\"@ + n + ") {"@),
        strings::contains_text(ps_save(n), "{ $env:UVR_OLD_"@ + n + " = $env:"@ + n + ";"@),
        strings::contains_text(ps_save(n), "$env:UVR_OLD_"@ + n + "_SET = '1' }"@),
        strings::contains_text(ps_save(n), "else { $env:UVR_OLD_"@ + n + "_SET = '' }"@),
{
    reveal_strlit("\n");
    reveal_strlit(" $env:UVR_OLD_");
    reveal_strlit(" = $env:");
    reveal_strlit(" else { $env:UVR_OLD_");
    reveal_strlit("$env:UVR_OLD_");
    reveal_strlit(") ");
    reveal_strlit(") {");
    reveal_strlit(") { $env:UVR_OLD_");
    reveal_strlit(";");
    reveal_strlit("; ");
    reveal_strlit("; $env:UVR_OLD_");
    reveal_strlit("_SET = '' }");
    reveal_strlit("_SET = '' }\n");
    reveal_strlit("_SET = '1' }");
    reveal_strlit("_SET = '1' } ");
    reveal_strlit("_SET = '1' } else { $env:UVR_OLD_");
    reveal_strlit("else { $env:UVR_OLD_");
    reveal_strlit("if (Test-Path Env:\\");
    reveal_strlit("{ $env:UVR_OLD_");
    let line = ps_save(n);
    let pre0 = Seq::<char>::empty();
    let part0 = "if (Test-Path Env:\\"@ + n + ") {"@;
    let post0 = " $env:UVR_OLD_"@ + n + " = $env:"@ + n + "; $env:UVR_OLD_"@ + n
        + "_SET = '1' } else { $env:UVR_OLD_"@ + n + "_SET = '' }\n"@;
    assert(line =~= pre0 + part0 + post0);
    strings::lemma_contains_middle(pre0, part0, post0);
    let pre1 = "if (Test-Path Env:\\"@ + n + ") "@;
    let part1 = "{ $env:UVR_OLD_"@ + n + " = $env:"@ + n + ";"@;
    let post1 = " $env:UVR_OLD_"@ + n + "_SET = '1' } else { $env:UVR_OLD_"@ + n + "_SET = '' }\n"@;
    assert(line =~= pre1 + part1 + post1);
    strings::lemma_contains_middle(pre1, part1, post1);
    let pre2 = "if (Test-Path Env:\\"@ + n + ") { $env:UVR_OLD_"@ + n + " = $env:"@ + n + "; "@;
    let part2 = "$env:UVR_OLD_"@ + n + "_SET = '1' }"@;
    let post2 = " else { $env:UVR_OLD_"@ + n + "_SET = '' }\n"@;
    assert(line =~= pre2 + part2 + post2);
    strings::lemma_contains_middle(pre2, part2, post2);
    let pre3 = "if (Test-Path Env:\\"@ + n + ") { $env:UVR_OLD_"@ + n + " = $env:"@ + n
        + "; $env:UVR_OLD_"@ + n + "_SET = '1' } "@;
    let part3 = "else { $env:UVR_OLD_"@ + n + "_SET = '' }"@;
    let post3 = "\n"@;
    assert(line =~= pre3 + part3 + post3);
    strings::lemma_contains_middle(pre3, part3, post3);
}

/// In PowerShell restoring a variable gives it the value that was kept where it was set, and
/// removes it where it was not.
pub proof fn law_ps_restore_line(n: Seq<char>)
    ensures
        strings::contains_text(ps_restore(n), "if ($env:UVR_OLD_"@ + n + "_SET) {"@),
        strings::contains_text(ps_restore(n), "{ $env:"@ + n + " = $env:UVR_OLD_"@ + n + " }"@),
        strings::contains_text(ps_restore(n), "else { Remove-Item Env:\\"@ + n + " "@),
{
    reveal_strlit(" ");
    reveal_strlit("    ");
    reveal_strlit("    if ($env:UVR_OLD_");
    reveal_strlit(" $env:");
    reveal_strlit(" -ErrorAction SilentlyContinue }\n");
    reveal_strlit(" = $env:UVR_OLD_");
    reveal_strlit(" else { Remove-Item Env:\\");
    reveal_strlit(" }");
    reveal_strlit(" } ");
    reveal_strlit(" } else { Remove-Item Env:\\");
    reveal_strlit("-ErrorAction SilentlyContinue }\n");
    reveal_strlit("_SET) ");
    reveal_strlit("_SET) {");
    reveal_strlit("_SET) { $env:");
    reveal_strlit("else { Remove-Item Env:\\");
    reveal_strlit("if ($env:UVR_OLD_");
    reveal_strlit("{ $env:");
    let line = ps_restore(n);
    let pre0 = "    "@;
    let part0 = "if ($env:UVR_OLD_"@ + n + "_SET) {"@;
    let post0 = " $env:"@ + n + " = $env:UVR_OLD_"@ + n + " } else { Remove-Item Env:\\"@ + n
        + " -ErrorAction SilentlyContinue }\n"@;
    assert(line =~= pre0 + part0 + post0);
    strings::lemma_contains_middle(pre0, part0, post0);
    let pre1 = "    if ($env:UVR_OLD_"@ + n + "_SET) "@;
    let part1 = "{ $env:"@ + n + " = $env:UVR_OLD_"@ + n + " }"@;
    let post1 = " else { Remove-Item Env:\\"@ + n + " -ErrorAction SilentlyContinue }\n"@;
    assert(line =~= pre1 + part1 + post1);
    strings::lemma_contains_middle(pre1, part1, post1);
    let pre2 = "    if ($env:UVR_OLD_"@ + n + "_SET) { $env:"@ + n + " = $env:UVR_OLD_"@ + n
        + " } "@;
    let part2 = "else { Remove-Item Env:\\"@ + n + " "@;
    let post2 = "-ErrorAction SilentlyContinue }\n"@;
    assert(line =~= pre2 + part2 + post2);
    strings::lemma_contains_middle(pre2, part2, post2);
}

/// In PowerShell unsetting a variable removes that variable.
pub proof fn law_ps_unset_line(n: Seq<char>)
    ensures
        strings::contains_text(ps_unset(n), "Remove-Item Env:\\"@ + n + " "@),
{
    reveal_strlit(" ");
    reveal_strlit("    ");
    reveal_strlit("    Remove-Item Env:\\");
    reveal_strlit(" -ErrorAction SilentlyContinue\n");
    reveal_strlit("-ErrorAction SilentlyContinue\n");
    reveal_strlit("Remove-Item Env:\\");
    let line = ps_unset(n);
    let pre0 = "    "@;
    let part0 = "Remove-Item Env:\\"@ + n + " "@;
    let post0 = "-ErrorAction SilentlyContinue\n"@;
    assert(line =~= pre0 + part0 + post0);
    strings::lemma_contains_middle(pre0, part0, post0);
}

/// In PowerShell dropping what was saved of a variable removes both names.
pub proof fn law_ps_clean_line(n: Seq<char>)
    ensures
        strings::contains_text(ps_clean(n), "Remove-Item Env:\\UVR_OLD_"@ + n + " "@),
        strings::contains_text(ps_clean(n), "Remove-Item Env:\\UVR_OLD_"@ + n + "_SET "@),
{
    reveal_strlit(" ");
    reveal_strlit("    ");
    reveal_strlit("    Remove-Item Env:\\UVR_OLD_");
    reveal_strlit(" -ErrorAction SilentlyContinue\n    ");
    reveal_strlit(" -ErrorAction SilentlyContinue\n    Remove-Item Env:\\UVR_OLD_");
    reveal_strlit("-ErrorAction SilentlyContinue\n");
    reveal_strlit("-ErrorAction SilentlyContinue\n    Remove-Item Env:\\UVR_OLD_");
    reveal_strlit("Remove-Item Env:\\UVR_OLD_");
    reveal_strlit("_SET ");
    reveal_strlit("_SET -ErrorAction SilentlyContinue\n");
    let line = ps_clean(n);
    let pre0 = "    "@;
    let part0 = "Remove-Item Env:\\UVR_OLD_"@ + n + " "@;
    let post0 = "-ErrorAction SilentlyContinue\n    Remove-Item Env:\\UVR_OLD_"@ + n
        + "_SET -ErrorAction SilentlyContinue\n"@;
    assert(line =~= pre0 + part0 + post0);
    strings::lemma_contains_middle(pre0, part0, post0);
    let pre1 = "    Remove-Item Env:\\UVR_OLD_"@ + n + " -ErrorAction SilentlyContinue\n    "@;
    let part1 = "Remove-Item Env:\\UVR_OLD_"@ + n + "_SET "@;
    let post1 = "-ErrorAction SilentlyContinue\n"@;
    assert(line =~= pre1 + part1 + post1);
    strings::lemma_contains_middle(pre1, part1, post1);
}

/// In POSIX shells setting a variable gives it the value in quotes, and exports it.
pub proof fn law_posix_set_line(n: Seq<char>, v: Seq<char>)
    ensures
        strings::contains_text(posix_set(n, v), n + "="@ + sh_quoted(v) + ";"@),
        strings::contains_text(posix_set(n, v), "export "@ + n + "\n"@),
{
    reveal_strlit("\n");
    reveal_strlit(" export ");
    reveal_strlit(";");
    reveal_strlit("; ");
    reveal_strlit("; export ");
    reveal_strlit("=");
    reveal_strlit("export ");
    let line = posix_set(n, v);
    let pre0 = Seq::<char>::empty();
    let part0 = n + "="@ + sh_quoted(v) + ";"@;
    let post0 = " export "@ + n + "\n"@;
    assert(line =~= pre0 + part0 + post0);
    strings::lemma_contains_middle(pre0, part0, post0);
    let pre1 = n + "="@ + sh_quoted(v) + "; "@;
    let part1 = "export "@ + n + "\n"@;
    let post1 = Seq::<char>::empty();
    assert(line =~= pre1 + part1 + post1);
    strings::lemma_contains_middle(pre1, part1, post1);
}

/// In fish setting a variable exports it with the value in quotes.
pub proof fn law_fish_set_line(n: Seq<char>, v: Seq<char>)
    ensures
        strings::contains_text(fish_set(n, v), "set -gx "@ + n + " "@ + fish_quoted(v) + "\n"@),
{
    reveal_strlit("\n");
    reveal_strlit(" ");
    reveal_strlit("set -gx ");
    let line = fish_set(n, v);
    let pre0 = Seq::<char>::empty();
    let part0 = "set -gx "@ + n + " "@ + fish_quoted(v) + "\n"@;
    let post0 = Seq::<char>::empty();
    assert(line =~= pre0 + part0 + post0);
    strings::lemma_contains_middle(pre0, part0, post0);
}

/// In PowerShell setting a variable gives it the value in quotes.
pub proof fn law_ps_set_line(n: Seq<char>, v: Seq<char>)
    ensures
        strings::contains_text(ps_set(n, v), "$env:"@ + n + " = "@ + ps_quoted(v) + "\n"@),
{
    reveal_strlit("\n");
    reveal_strlit(" = ");
    reveal_strlit("$env:");
    let line = ps_set(n, v);
    let pre0 = Seq::<char>::empty();
    let part0 = "$env:"@ + n + " = "@ + ps_quoted(v) + "\n"@;
    let post0 = Seq::<char>::empty();
    assert(line =~= pre0 + part0 + post0);
    strings::lemma_contains_middle(pre0, part0, post0);
}

/// The search path begins with the directory of the R binary, and what it was goes on
/// behind it, in every shell. The name of the project is set in quotes.
pub proof fn law_path_and_project_lines(a: Activation)
    ensures
        ({
            let k = a.vars.len() as int + 4;
            let m = k + a.vars.len() as int + 1;
            &&& posix_lines(a)[k] == "PATH="@ + sh_quoted(a.bin_dir) + "\""@ + a.sep
                + "${PATH-}\"; export PATH\n"@
            &&& fish_lines(a)[k] == "set -gx PATH "@ + fish_quoted(a.bin_dir) + " $PATH\n"@
            &&& ps_lines(a)[k] == "$env:PATH = "@ + ps_quoted(a.bin_dir) + " + '"@ + a.sep
                + "' + $env:PATH\n"@
            &&& posix_lines(a)[m] == "UVR_PROJECT="@ + sh_quoted(a.project)
                + "; export UVR_PROJECT\n"@
            &&& fish_lines(a)[m] == "set -gx UVR_PROJECT "@ + fish_quoted(a.project) + "\n"@
            &&& ps_lines(a)[m] == "$env:UVR_PROJECT = "@ + ps_quoted(a.project) + "\n"@
        }),
{
}

/// What goes into the activation of a project: its name, the separator of its system, the
/// directory of the binary, and the variables that R is run with, in their order.
pub proof fn law_activation_of_a_project(
    project: Seq<char>,
    e: Environment,
    bin_dir: Seq<char>,
    lib_dir: Seq<char>,
)
    ensures
        ({
            let a = env_activation(project, e, bin_dir, lib_dir);
            &&& a.project == project
            &&& a.bin_dir == bin_dir
            &&& a.sep == (if e.platform == Platform::Unix {
                seq![':']
            } else {
                seq![';']
            })
            &&& a.vars == r_env::variables(e, lib_dir)
        }),
{
    r_env::law_separators();
}

/// On Unix the script of a project is that of the directories beside its binary: with
/// the binary `home/bin/R` these are `home/bin` and `home/lib`.
pub proof fn law_script_on_unix(
    shell: ActivateShell,
    project: Seq<char>,
    e: Environment,
    script: Seq<char>,
    home: Seq<char>,
)
    requires
        is_activation(shell, project, e, script),
        e.platform == Platform::Unix,
        e.r_binary == home + "/bin/R"@,
        home.len() > 0,
        strings::is_ascii_alnum(home.last()),
        home.len() > 1 ==> !(r_env::is_separator(home[0]) && r_env::is_separator(home[1])),
    ensures
        script == strings::join(
            script_lines(
                shell,
                env_activation(project, e, home + "/bin"@, home + "/lib"@),
            ),
            ""@,
        ),
{
    r_env::law_directories_on_unix(home);
}

/// The script for POSIX shells is named `activate`, and asks this program for the code of just that
/// shell.
pub proof fn law_shim_for_posix()
    ensures
        shim_files().len() == 3,
        shim_files()[0].0 == "activate"@,
        strings::contains_text(shim_files()[0].1, "uvr activate --emit sh)"@),
{
    reveal_strlit(
        r#"# uvr project environment — source this file to activate:
#
#     source .uvr/activate
#
# Generated by uvr; do not edit. This file contains no paths: it asks the
# uvr binary to recompute the environment on every activation, so changing
# the project's R version never leaves it stale.
if ! command -v uvr >/dev/null 2>&1; then
    echo "uvr: not found on PATH — cannot activate this project." >&2
else
    # Only eval on success, so a failed resolve (no project, no R) leaves
    # the shell untouched instead of half-activated.
    __uvr_activate_out="$(uvr activate --emit sh)" && eval "$__uvr_activate_out"
    unset __uvr_activate_out
fi
"#,
    );
    reveal_strlit("uvr activate --emit sh)");
    let body = SHIM_SH_BODY@;
    let asked = "uvr activate --emit sh)"@;
    assert(body.subrange(557, 557 + asked.len() as int) =~= asked);
    assert(strings::occurs_at(body, asked, 557));
}

/// The script for fish is named `activate.fish`, and asks this program for the code of just that
/// shell.
pub proof fn law_shim_for_fish()
    ensures
        shim_files().len() == 3,
        shim_files()[1].0 == "activate.fish"@,
        strings::contains_text(shim_files()[1].1, "uvr activate --emit fish "@),
{
    reveal_strlit(
        r#"# uvr project environment — source this file to activate:
#
#     source .uvr/activate.fish
#
# Generated by uvr; do not edit. Contains no paths: the environment is
# recomputed by the uvr binary on every activation.
if not command -q uvr
    echo "uvr: not found on PATH — cannot activate this project." >&2
else
    # Only eval on success, so a failed resolve leaves the shell untouched.
    set -l __uvr_activate_out (uvr activate --emit fish | string collect)
    if test $status -eq 0
        eval $__uvr_activate_out
    end
end
"#,
    );
    reveal_strlit("uvr activate --emit fish ");
    let body = SHIM_FISH_BODY@;
    let asked = "uvr activate --emit fish "@;
    assert(body.subrange(421, 421 + asked.len() as int) =~= asked);
    assert(strings::occurs_at(body, asked, 421));
}

/// The script for PowerShell is named `activate.ps1`, and asks this program for the code of just that
/// shell.
pub proof fn law_shim_for_powershell()
    ensures
        shim_files().len() == 3,
        shim_files()[2].0 == "activate.ps1"@,
        strings::contains_text(shim_files()[2].1, "uvr activate --emit powershell\n"@),
{
    reveal_strlit(
        r#"# uvr project environment — dot-source this file to activate:
#
#     . .uvr/activate.ps1
#
# Generated by uvr; do not edit. Contains no paths: the environment is
# recomputed by the uvr binary on every activation.
if (-not (Get-Command uvr -ErrorAction SilentlyContinue)) {
    Write-Error "uvr: not found on PATH — cannot activate this project."
} else {
    # Only invoke on success, so a failed resolve leaves the shell untouched.
    $uvrActivateOut = & uvr activate --emit powershell
    if ($LASTEXITCODE -eq 0) {
        Invoke-Expression ($uvrActivateOut -join "`n")
    }
}
"#,
    );
    reveal_strlit("uvr activate --emit powershell\n");
    let body = SHIM_PS1_BODY@;
    let asked = "uvr activate --emit powershell\n"@;
    assert(body.subrange(459, 459 + asked.len() as int) =~= asked);
    assert(strings::occurs_at(body, asked, 459));
}

/// The hint tells the path of the script for POSIX shells in a project, and how to undo an
/// activation.
pub proof fn law_hint()
    ensures
        strings::contains_text(hint_text(), "source .uvr/activate\n"@),
        strings::contains_text(hint_text(), "`deactivate`"@),
{
    let a = "Activate this project with:\n\n    "@;
    let b = "\nThen run "@;
    let c = " to restore your shell."@;
    reveal_strlit("Activate this project with:\n\n    source ");
    reveal_strlit("Activate this project with:\n\n    ");
    reveal_strlit("source .uvr/activate\n");
    reveal_strlit(".uvr");
    reveal_strlit("/");
    reveal_strlit("activate");
    reveal_strlit("\n\nThen run `deactivate` to restore your shell.");
    reveal_strlit("\nThen run ");
    reveal_strlit("`deactivate`");
    reveal_strlit(" to restore your shell.");
    let t = hint_text();
    let p = "source .uvr/activate\n"@;
    let q = "`deactivate`"@;
    assert(t =~= a + p + (b + q + c));
    strings::lemma_contains_middle(a, p, b + q + c);
    assert(t =~= a + p + b + q + c);
    strings::lemma_contains_middle(a + p + b, q, c);
}

} // verus!
