//! The rename engine: turns a [`Pipeline`] of steps into new names for a batch of files.
//!
//! This is the single source of truth — both the live preview and the actual apply derive
//! their new names from it. Every row is stated exactly: `run_steps` folds the enabled
//! steps over a file's (stem, extension) pair.

use vstd::prelude::*;

use crate::conflicts::{annotate, annotated, row_target, row_targets, row_view, rows_view};
use crate::pattern::{regex_build_error, regex_replace_all, CompiledRegex};
use crate::steps::{
    change_case, change_case_spec, clean_up, clean_up_spec, counter_affix, counter_affix_spec,
    find_replace, find_replace_spec, insert, insert_spec, regex_replace, remove, remove_fits,
    remove_spec,
};
use crate::text::{push_all, push_str, slice_chars, str_to_chars, string_from_chars};
use crate::types::{
    FileEntry, Pipeline, PreviewResult, PreviewRow, RowStatus, Scope, Step, StepConfig, StepError, AiResultItem,
};

verus! {

// ---------------------------------------------------------------------------------------
// Name parts
// ---------------------------------------------------------------------------------------

/// A filename split into stem + extension, mutated as steps run.
pub struct NameParts {
    pub stem: String,
    pub ext: String,
}

/// `stem.ext`, or just `stem` when the extension is empty.
pub open spec fn assemble_spec(stem: Seq<char>, ext: Seq<char>) -> Seq<char> {
    if ext.len() == 0 {
        stem
    } else {
        stem + seq!['.'] + ext
    }
}

impl NameParts {
    pub fn assemble(&self) -> (r: String)
        ensures
            r@ == assemble_spec(self.stem@, self.ext@),
    {
        if self.ext.as_str().is_empty() {
            self.stem.clone()
        } else {
            let mut out = str_to_chars(self.stem.as_str());
            out.push('.');
            push_str(&mut out, self.ext.as_str());
            string_from_chars(out.as_slice())
        }
    }
}

/// Index of the last `.` in `s`.
pub open spec fn last_dot(s: Seq<char>) -> Option<int>
    decreases s.len(),
{
    if s.len() == 0 {
        None
    } else if s.last() == '.' {
        Some(s.len() - 1)
    } else {
        last_dot(s.drop_last())
    }
}

/// Splits a filename into (stem, ext) at its last dot (`rsplit_once('.')`). A leading dot
/// (dotfile) is part of the stem, as is everything when there is no dot.
pub open spec fn split_name_spec(s: Seq<char>) -> (Seq<char>, Seq<char>) {
    match last_dot(s) {
        Some(k) => if k > 0 {
            (s.take(k), s.skip(k + 1))
        } else {
            (s, seq![])
        },
        None => (s, seq![]),
    }
}

proof fn lemma_last_dot_found(s: Seq<char>)
    ensures
        match last_dot(s) {
            Some(k) => 0 <= k < s.len() && s[k] == '.' && forall|j: int|
                k < j < s.len() ==> #[trigger] s[j] != '.',
            None => forall|j: int| 0 <= j < s.len() ==> #[trigger] s[j] != '.',
        },
    decreases s.len(),
{
    if s.len() > 0 && s.last() != '.' {
        lemma_last_dot_found(s.drop_last());
        match last_dot(s.drop_last()) {
            Some(k) => {
                assert forall|j: int| k < j < s.len() implies #[trigger] s[j] != '.' by {
                    if j < s.len() - 1 {
                        assert(s[j] == s.drop_last()[j]);
                    }
                }
            },
            None => {
                assert forall|j: int| 0 <= j < s.len() implies #[trigger] s[j] != '.' by {
                    if j < s.len() - 1 {
                        assert(s[j] == s.drop_last()[j]);
                    }
                }
            },
        }
    }
}

/// Splitting a filename and assembling the parts gives the name back, unless the name
/// ends with a dot after its first character (then the empty extension drops the dot).
pub proof fn lemma_split_then_assemble(name: Seq<char>)
    requires
        !(name.len() > 1 && name.last() == '.'),
    ensures
        assemble_spec(split_name_spec(name).0, split_name_spec(name).1) == name,
{
    lemma_last_dot_found(name);
    match last_dot(name) {
        Some(k) => {
            if k > 0 {
                assert(k < name.len() - 1);
                assert(name.skip(k + 1).len() > 0);
                assert(name.take(k) + seq!['.'] + name.skip(k + 1) =~= name);
            }
        },
        None => {},
    }
}

/// Assembling a stem and a non-empty extension without a dot, and splitting the result,
/// gives the parts back when the stem is not empty.
pub proof fn lemma_assemble_then_split(stem: Seq<char>, ext: Seq<char>)
    requires
        stem.len() > 0,
        ext.len() > 0,
        forall|j: int| 0 <= j < ext.len() ==> #[trigger] ext[j] != '.',
    ensures
        split_name_spec(assemble_spec(stem, ext)) == (stem, ext),
{
    let n = assemble_spec(stem, ext);
    assert(n[stem.len() as int] == '.');
    assert forall|j: int| stem.len() < j < n.len() implies #[trigger] n[j] != '.' by {
        assert(n[j] == ext[j - stem.len() - 1]);
    }
    lemma_last_dot_found(n);
    match last_dot(n) {
        Some(k) => {
            if k < stem.len() {
                assert(n[stem.len() as int] != '.');
            }
            assert(k == stem.len());
            assert(n.take(k) =~= stem);
            assert(n.skip(k + 1) =~= ext);
        },
        None => {
            assert(n[stem.len() as int] != '.');
        },
    }
}

proof fn lemma_last_dot_take(s: Seq<char>, j: int)
    requires
        0 <= j <= s.len(),
        forall|k: int| j <= k < s.len() ==> #[trigger] s[k] != '.',
    ensures
        last_dot(s) == last_dot(s.take(j)),
    decreases s.len() - j,
{
    if j < s.len() {
        assert(s.drop_last().take(j) =~= s.take(j));
        lemma_last_dot_take(s.drop_last(), j);
    } else {
        assert(s.take(j) =~= s);
    }
}

/// Split a filename into (stem, ext). A leading dot (dotfile) is part of the stem.
pub fn split_name(name: &str) -> (r: (String, String))
    ensures
        (r.0@, r.1@) == split_name_spec(name@),
{
    let chars = str_to_chars(name);
    let mut j: usize = chars.len();
    while j > 0 && chars[j - 1] != '.'
        invariant
            j <= chars.len(),
            forall|k: int| j <= k < chars.len() ==> #[trigger] chars@[k] != '.',
        decreases j,
    {
        j = j - 1;
    }
    proof {
        lemma_last_dot_take(chars@, j as int);
        if j > 0 {
            assert(chars@.take(j as int).last() == chars@[j - 1]);
        }
    }
    if j > 1 {
        let stem = slice_chars(&chars, 0, j - 1);
        let ext = slice_chars(&chars, j, chars.len());
        assert(ext@ =~= chars@.skip(j as int));
        (string_from_chars(stem.as_slice()), string_from_chars(ext.as_slice()))
    } else {
        (name.to_owned(), String::new())
    }
}

/// The portion of the name a step of this scope reads.
pub open spec fn target_spec(stem: Seq<char>, ext: Seq<char>, scope: Scope) -> Seq<char> {
    match scope {
        Scope::Stem => stem,
        Scope::Ext => ext,
        Scope::Full => assemble_spec(stem, ext),
    }
}

/// The name after writing `value` back into the portion a step of this scope targets.
pub open spec fn set_target_spec(stem: Seq<char>, ext: Seq<char>, scope: Scope, value: Seq<char>) -> (
    Seq<char>,
    Seq<char>,
) {
    match scope {
        Scope::Stem => (value, ext),
        Scope::Ext => (stem, value),
        Scope::Full => split_name_spec(value),
    }
}

/// Read the portion of the name a step targets.
fn get_target(p: &NameParts, scope: Scope) -> (r: String)
    ensures
        r@ == target_spec(p.stem@, p.ext@, scope),
{
    match scope {
        Scope::Stem => p.stem.clone(),
        Scope::Ext => p.ext.clone(),
        Scope::Full => p.assemble(),
    }
}

/// Write back the transformed portion of the name.
fn set_target(p: &mut NameParts, scope: Scope, value: String)
    ensures
        (final(p).stem@, final(p).ext@) == set_target_spec(old(p).stem@, old(p).ext@, scope, value@),
{
    match scope {
        Scope::Stem => {
            p.stem = value;
        },
        Scope::Ext => {
            p.ext = value;
        },
        Scope::Full => {
            let (s, e) = split_name(value.as_str());
            p.stem = s;
            p.ext = e;
        },
    }
}

// ---------------------------------------------------------------------------------------
// Steps
// ---------------------------------------------------------------------------------------

/// The suggestion an AI step holds for `id`: the last item with that id, as collecting the
/// items into a map keeps the last one.
pub open spec fn ai_lookup(items: Seq<AiResultItem>, id: Seq<char>) -> Option<Seq<char>>
    decreases items.len(),
{
    if items.len() == 0 {
        None
    } else if items.last().id@ == id {
        Some(items.last().new_name@)
    } else {
        ai_lookup(items.drop_last(), id)
    }
}

/// The view of an optional owned string.
pub open spec fn opt_string_view(o: Option<String>) -> Option<Seq<char>> {
    match o {
        Some(r) => Some(r@),
        None => None,
    }
}

/// The number a counter step uses: the per-directory position when it resets per
/// directory, the position in the whole batch otherwise.
pub open spec fn counter_n(reset_per_directory: bool, index: nat, dir_index: nat) -> nat {
    if reset_per_directory {
        dir_index
    } else {
        index
    }
}

pub open spec fn in_i64(v: int) -> bool {
    i64::MIN <= v && v <= i64::MAX
}

/// A step's arithmetic stays in range: a remove-at-index does not overflow
/// `index + count`, and a counter's `n * step` and `start + n * step` fit in an `i64`.
pub open spec fn step_fits(s: Step, target: Seq<char>, index: nat, dir_index: nat) -> bool {
    match s {
        Step::Remove { from, count, index: at } => remove_fits(target.len(), from, count, at),
        Step::Counter { start, step, reset_per_directory, .. } => {
            let n = counter_n(reset_per_directory, index, dir_index);
            n <= i64::MAX && in_i64(n * step) && in_i64(start + n * step)
        },
        _ => true,
    }
}

/// A step takes part in the run when it is enabled and, for a regex step, its pattern
/// compiles.
pub open spec fn step_active(cfg: StepConfig) -> bool {
    cfg.enabled && match cfg.step {
        Step::Regex { pattern, ignore_case, dotall, multiline, .. } => regex_build_error(
            pattern@,
            ignore_case,
            dotall,
            multiline,
        ) is None,
        _ => true,
    }
}

/// What one step makes of its target.
pub open spec fn step_output(
    s: Step,
    target: Seq<char>,
    file_id: Seq<char>,
    index: nat,
    dir_index: nat,
) -> Seq<char> {
    match s {
        Step::FindReplace { find, replace, case_sensitive, all_occurrences } => find_replace_spec(
            target,
            find@,
            replace@,
            case_sensitive,
            all_occurrences,
        ),
        Step::Regex { pattern, replacement, ignore_case, dotall, multiline } => regex_replace_all(
            pattern@,
            ignore_case,
            dotall,
            multiline,
            target,
            replacement@,
        ),
        Step::ChangeCase { mode } => change_case_spec(target, mode),
        Step::Insert { text, position, index: at } => insert_spec(target, text@, position, at),
        Step::Remove { from, count, index: at } => remove_spec(
            target,
            from,
            count as nat,
            at as nat,
        ),
        Step::CleanUp { trim, collapse_whitespace, spaces_to, strip_diacritics } => clean_up_spec(
            target,
            trim,
            collapse_whitespace,
            opt_string_view(spaces_to),
            strip_diacritics,
        ),
        Step::Counter { start, step, padding, separator, position, reset_per_directory } => {
            counter_affix_spec(
                target,
                start + counter_n(reset_per_directory, index, dir_index) * step,
                padding as nat,
                separator@,
                position,
            )
        },
        Step::Ai { results, .. } => match results {
            Some(items) => match ai_lookup(items@, file_id) {
                Some(n) => n,
                None => target,
            },
            None => target,
        },
    }
}

/// Runs the steps in order over (stem, ext): inactive steps are skipped, every active step
/// rewrites its target. `None` when some active step's arithmetic would overflow.
pub open spec fn run_steps(
    steps: Seq<StepConfig>,
    stem: Seq<char>,
    ext: Seq<char>,
    file_id: Seq<char>,
    index: nat,
    dir_index: nat,
) -> Option<(Seq<char>, Seq<char>)>
    decreases steps.len(),
{
    if steps.len() == 0 {
        Some((stem, ext))
    } else {
        let cfg = steps[0];
        if !step_active(cfg) {
            run_steps(steps.drop_first(), stem, ext, file_id, index, dir_index)
        } else {
            let t = target_spec(stem, ext, cfg.scope);
            if !step_fits(cfg.step, t, index, dir_index) {
                None
            } else {
                let parts = set_target_spec(
                    stem,
                    ext,
                    cfg.scope,
                    step_output(cfg.step, t, file_id, index, dir_index),
                );
                run_steps(steps.drop_first(), parts.0, parts.1, file_id, index, dir_index)
            }
        }
    }
}

/// Steps that do not run leave the name as it is: a pipeline whose steps are all disabled
/// (or cannot run) gives every file its own name back.
pub proof fn lemma_inactive_steps_keep_name(
    steps: Seq<StepConfig>,
    stem: Seq<char>,
    ext: Seq<char>,
    file_id: Seq<char>,
    index: nat,
    dir_index: nat,
)
    requires
        forall|k: int| 0 <= k < steps.len() ==> !step_active(#[trigger] steps[k]),
    ensures
        run_steps(steps, stem, ext, file_id, index, dir_index) == Some((stem, ext)),
    decreases steps.len(),
{
    if steps.len() > 0 {
        assert(!step_active(steps[0]));
        assert forall|k: int| 0 <= k < steps.drop_first().len() implies !step_active(
            #[trigger] steps.drop_first()[k],
        ) by {
            assert(steps.drop_first()[k] == steps[k + 1]);
        }
        lemma_inactive_steps_keep_name(steps.drop_first(), stem, ext, file_id, index, dir_index);
    }
}

/// A pipeline runs its steps in order: running `first` followed by `second` is running
/// `first` and then running `second` on what it produced.
pub proof fn lemma_steps_compose(
    first: Seq<StepConfig>,
    second: Seq<StepConfig>,
    stem: Seq<char>,
    ext: Seq<char>,
    file_id: Seq<char>,
    index: nat,
    dir_index: nat,
)
    ensures
        run_steps(first + second, stem, ext, file_id, index, dir_index) == match run_steps(
            first,
            stem,
            ext,
            file_id,
            index,
            dir_index,
        ) {
            Some(p) => run_steps(second, p.0, p.1, file_id, index, dir_index),
            None => None,
        },
    decreases first.len(),
{
    if first.len() == 0 {
        assert(first + second =~= second);
    } else {
        let all = first + second;
        assert(all[0] == first[0]);
        assert(all.drop_first() =~= first.drop_first() + second);
        let cfg = first[0];
        if !step_active(cfg) {
            lemma_steps_compose(first.drop_first(), second, stem, ext, file_id, index, dir_index);
        } else {
            let t = target_spec(stem, ext, cfg.scope);
            if step_fits(cfg.step, t, index, dir_index) {
                let parts = set_target_spec(
                    stem,
                    ext,
                    cfg.scope,
                    step_output(cfg.step, t, file_id, index, dir_index),
                );
                lemma_steps_compose(
                    first.drop_first(),
                    second,
                    parts.0,
                    parts.1,
                    file_id,
                    index,
                    dir_index,
                );
            }
        }
    }
}

/// A single step reads and writes the part of the name its scope names: in stem scope it
/// rewrites the stem and keeps the extension, in extension scope it rewrites the extension
/// and keeps the stem, and in full scope it rewrites `stem.ext` (just the stem when there is
/// no extension) and splits the result again at its last dot.
pub proof fn lemma_step_scopes(
    cfg: StepConfig,
    stem: Seq<char>,
    ext: Seq<char>,
    file_id: Seq<char>,
    index: nat,
    dir_index: nat,
)
    requires
        step_active(cfg),
    ensures
        run_steps(seq![cfg], stem, ext, file_id, index, dir_index) == match cfg.scope {
            Scope::Stem => if step_fits(cfg.step, stem, index, dir_index) {
                Some((step_output(cfg.step, stem, file_id, index, dir_index), ext))
            } else {
                None
            },
            Scope::Ext => if step_fits(cfg.step, ext, index, dir_index) {
                Some((stem, step_output(cfg.step, ext, file_id, index, dir_index)))
            } else {
                None
            },
            Scope::Full => {
                let full = if ext.len() == 0 {
                    stem
                } else {
                    stem + seq!['.'] + ext
                };
                if step_fits(cfg.step, full, index, dir_index) {
                    Some(split_name_spec(step_output(cfg.step, full, file_id, index, dir_index)))
                } else {
                    None
                }
            },
        },
{
    let steps = seq![cfg];
    assert(steps[0] == cfg);
    assert(steps.drop_first() =~= Seq::<StepConfig>::empty());
    let t = target_spec(stem, ext, cfg.scope);
    if step_fits(cfg.step, t, index, dir_index) {
        let parts = set_target_spec(
            stem,
            ext,
            cfg.scope,
            step_output(cfg.step, t, file_id, index, dir_index),
        );
        assert(run_steps(steps, stem, ext, file_id, index, dir_index) == run_steps(
            steps.drop_first(),
            parts.0,
            parts.1,
            file_id,
            index,
            dir_index,
        ));
        assert(run_steps(Seq::<StepConfig>::empty(), parts.0, parts.1, file_id, index, dir_index)
            == Some((parts.0, parts.1)));
    }
}

proof fn lemma_run_steps_skip(
    steps: Seq<StepConfig>,
    i: int,
    stem: Seq<char>,
    ext: Seq<char>,
    file_id: Seq<char>,
    index: nat,
    dir_index: nat,
)
    requires
        0 <= i < steps.len(),
    ensures
        run_steps(steps.skip(i), stem, ext, file_id, index, dir_index) == ({
            let cfg = steps[i];
            if !step_active(cfg) {
                run_steps(steps.skip(i + 1), stem, ext, file_id, index, dir_index)
            } else {
                let t = target_spec(stem, ext, cfg.scope);
                if !step_fits(cfg.step, t, index, dir_index) {
                    None
                } else {
                    let parts = set_target_spec(
                        stem,
                        ext,
                        cfg.scope,
                        step_output(cfg.step, t, file_id, index, dir_index),
                    );
                    run_steps(steps.skip(i + 1), parts.0, parts.1, file_id, index, dir_index)
                }
            }
        }),
{
    assert(steps.skip(i).drop_first() =~= steps.skip(i + 1));
    assert(steps.skip(i)[0] == steps[i]);
}

/// `c` was compiled from the pattern and flags of the regex step `s`.
pub open spec fn compiled_for(c: CompiledRegex, s: Step) -> bool {
    match s {
        Step::Regex { pattern, ignore_case, dotall, multiline, .. } => c.spec_pattern() == pattern@
            && c.spec_ignore_case() == ignore_case && c.spec_dotall() == dotall
            && c.spec_multiline() == multiline,
        _ => false,
    }
}

/// The AI suggestion for `id` among `items`.
fn ai_lookup_exec(items: &Vec<AiResultItem>, id: &String) -> (r: Option<String>)
    ensures
        opt_string_view(r) == ai_lookup(items@, id@),
{
    let mut j: usize = items.len();
    assert(items@.take(j as int) =~= items@);
    while j > 0
        invariant
            j <= items.len(),
            ai_lookup(items@, id@) == ai_lookup(items@.take(j as int), id@),
        decreases j,
    {
        let ghost t = items@.take(j as int);
        assert(t.drop_last() =~= items@.take(j - 1));
        assert(t.last() == items@[j - 1]);
        if items[j - 1].id == *id {
            return Some(items[j - 1].new_name.clone());
        }
        j = j - 1;
    }
    None
}

/// Apply one step to a name in place. `None` (with the name untouched) when its
/// arithmetic would overflow.
fn apply_step(
    cfg: &StepConfig,
    re: &Option<CompiledRegex>,
    parts: &mut NameParts,
    file_id: &String,
    index: usize,
    dir_index: usize,
) -> (ok: bool)
    requires
        step_active(*cfg),
        cfg.step is Regex ==> (re matches Some(c) && compiled_for(*c, cfg.step)),
    ensures
        ok == step_fits(
            cfg.step,
            target_spec(old(parts).stem@, old(parts).ext@, cfg.scope),
            index as nat,
            dir_index as nat,
        ),
        ok ==> (final(parts).stem@, final(parts).ext@) == set_target_spec(
            old(parts).stem@,
            old(parts).ext@,
            cfg.scope,
            step_output(
                cfg.step,
                target_spec(old(parts).stem@, old(parts).ext@, cfg.scope),
                file_id@,
                index as nat,
                dir_index as nat,
            ),
        ),
        !ok ==> *final(parts) == *old(parts),
{
    let scope = cfg.scope;
    let target = get_target(parts, scope);
    let result: String = match &cfg.step {
        Step::FindReplace { find, replace, case_sensitive, all_occurrences } => find_replace(
            target.as_str(),
            find.as_str(),
            replace.as_str(),
            *case_sensitive,
            *all_occurrences,
        ),
        Step::Regex { replacement, .. } => match re {
            Some(compiled) => regex_replace(target.as_str(), compiled, replacement.as_str()),
            None => target,
        },
        Step::ChangeCase { mode } => change_case(target.as_str(), *mode),
        Step::Insert { text, position, index: at } => insert(
            target.as_str(),
            text.as_str(),
            *position,
            *at,
        ),
        Step::Remove { from, count, index: at } => {
            let len = str_to_chars(target.as_str()).len();
            let start = if *at < len {
                *at
            } else {
                len
            };
            if *from == crate::types::RemoveFrom::Index && *count > usize::MAX - start {
                return false;
            }
            remove(target.as_str(), *from, *count, *at)
        },
        Step::CleanUp { trim, collapse_whitespace, spaces_to, strip_diacritics } => {
            let rep: Option<&str> = match spaces_to {
                Some(s) => Some(s.as_str()),
                None => None,
            };
            clean_up(target.as_str(), *trim, *collapse_whitespace, rep, *strip_diacritics)
        },
        Step::Counter { start, step, padding, separator, position, reset_per_directory } => {
            let n: usize = if *reset_per_directory {
                dir_index
            } else {
                index
            };
            if n as u64 > 0x7fff_ffff_ffff_ffffu64 {
                return false;
            }
            let n64: i64 = n as i64;
            let prod = match n64.checked_mul(*step) {
                Some(p) => p,
                None => {
                    return false;
                },
            };
            let value = match start.checked_add(prod) {
                Some(v) => v,
                None => {
                    return false;
                },
            };
            counter_affix(target.as_str(), value, *padding, separator.as_str(), *position)
        },
        Step::Ai { results, .. } => match results {
            Some(items) => match ai_lookup_exec(items, file_id) {
                Some(n) => n,
                None => target,
            },
            None => target,
        },
    };
    set_target(parts, scope, result);
    true
}


// ---------------------------------------------------------------------------------------
// Pipeline
// ---------------------------------------------------------------------------------------

/// Number of entries among the first `n` whose parent directory is `dir`.
pub open spec fn count_dir(entries: Seq<FileEntry>, n: int, dir: Seq<char>) -> nat
    decreases n,
{
    if n <= 0 {
        0
    } else {
        count_dir(entries, n - 1, dir) + if entries[n - 1].parent_dir@ == dir {
            1nat
        } else {
            0nat
        }
    }
}

/// Position of entry `i` among the entries of its own directory.
pub open spec fn dir_index_of(entries: Seq<FileEntry>, i: int) -> nat {
    count_dir(entries, i, entries[i].parent_dir@)
}

/// The pipeline's result for entry `i`: its final (stem, ext).
pub open spec fn entry_run(steps: Seq<StepConfig>, entries: Seq<FileEntry>, i: int) -> Option<
    (Seq<char>, Seq<char>),
> {
    let e = entries[i];
    run_steps(steps, e.stem@, e.ext@, e.id@, i as nat, dir_index_of(entries, i))
}

/// No step's arithmetic overflows on any entry.
pub open spec fn pipeline_fits(entries: Seq<FileEntry>, steps: Seq<StepConfig>) -> bool {
    forall|i: int| 0 <= i < entries.len() ==> (#[trigger] entry_run(steps, entries, i)) is Some
}

/// Row `i` of a preview before conflict checks: the original and new full names, and
/// `Unchanged` exactly when they are equal, `Changed` otherwise.
pub open spec fn row_matches(row: PreviewRow, steps: Seq<StepConfig>, entries: Seq<FileEntry>, i: int) -> bool {
    let e = entries[i];
    let orig = assemble_spec(e.stem@, e.ext@);
    match entry_run(steps, entries, i) {
        Some(p) => {
            let nn = assemble_spec(p.0, p.1);
            &&& row.id@ == e.id@
            &&& row.original@ == orig
            &&& row.new_name@ == nn
            &&& row.status == (if nn == orig {
                RowStatus::Unchanged
            } else {
                RowStatus::Changed
            })
            &&& row.message is None
        },
        None => false,
    }
}

/// The (step id, message) pairs of a list of step errors.
pub open spec fn errors_view(errs: Seq<StepError>) -> Seq<(Seq<char>, Seq<char>)> {
    errs.map_values(|e: StepError| (e.step_id@, e.message@))
}

/// One error per enabled regex step whose pattern does not compile, in step order.
pub open spec fn step_errors_spec(steps: Seq<StepConfig>) -> Seq<(Seq<char>, Seq<char>)>
    decreases steps.len(),
{
    if steps.len() == 0 {
        seq![]
    } else {
        let cfg = steps[0];
        let rest = step_errors_spec(steps.drop_first());
        match cfg.step {
            Step::Regex { pattern, ignore_case, dotall, multiline, .. } => if cfg.enabled {
                match regex_build_error(pattern@, ignore_case, dotall, multiline) {
                    Some(m) => seq![(cfg.id@, "Invalid regex: "@ + m)] + rest,
                    None => rest,
                }
            } else {
                rest
            },
            _ => rest,
        }
    }
}

/// Compile/prepare the enabled steps once: which steps run, their compiled regexes, and the
/// errors of steps that fail to prepare (skipped, not fatal).
fn prepare(pipeline: &Pipeline) -> (r: (Vec<bool>, Vec<Option<CompiledRegex>>, Vec<StepError>))
    ensures
        r.0.len() == pipeline.steps.len(),
        r.1.len() == pipeline.steps.len(),
        forall|k: int| 0 <= k < pipeline.steps.len() ==> r.0[k] == step_active(#[trigger] pipeline.steps[k]),
        forall|k: int|
            0 <= k < pipeline.steps.len() && (#[trigger] pipeline.steps[k]).step is Regex
                && r.0[k] ==> (r.1[k] matches Some(c) && compiled_for(c, pipeline.steps[k].step)),
        errors_view(r.2@) == step_errors_spec(pipeline.steps@),
{
    let steps = &pipeline.steps;
    let mut active: Vec<bool> = Vec::new();
    let mut compiled: Vec<Option<CompiledRegex>> = Vec::new();
    let mut errors: Vec<StepError> = Vec::new();
    let mut i: usize = 0;
    assert(steps@.skip(0) =~= steps@);
    assert(errors_view(errors@) =~= Seq::<(Seq<char>, Seq<char>)>::empty());
    while i < steps.len()
        invariant
            i <= steps.len(),
            active.len() == i,
            compiled.len() == i,
            forall|k: int| 0 <= k < i ==> active[k] == step_active(#[trigger] steps[k]),
            forall|k: int|
                0 <= k < i && (#[trigger] steps[k]).step is Regex && active[k] ==> (
                compiled[k] matches Some(c) && compiled_for(c, steps[k].step)),
            errors_view(errors@) + step_errors_spec(steps@.skip(i as int)) == step_errors_spec(
                steps@,
            ),
        decreases steps.len() - i,
    {
        let cfg = &steps[i];
        let ghost rest = steps@.skip(i as int);
        let ghost before = errors_view(errors@);
        assert(rest.drop_first() =~= steps@.skip(i + 1));
        assert(rest[0] == *cfg);
        if !cfg.enabled {
            active.push(false);
            compiled.push(None);
        } else {
            match &cfg.step {
                Step::Regex { pattern, ignore_case, dotall, multiline, .. } => {
                    match CompiledRegex::compile(pattern.as_str(), *ignore_case, *dotall, *multiline) {
                        Ok(re) => {
                            active.push(true);
                            compiled.push(Some(re));
                        },
                        Err(e) => {
                            active.push(false);
                            compiled.push(None);
                            let mut msg = str_to_chars("Invalid regex: ");
                            push_str(&mut msg, e.as_str());
                            let err = StepError {
                                step_id: cfg.id.clone(),
                                message: string_from_chars(msg.as_slice()),
                            };
                            errors.push(err);
                            assert(errors_view(errors@) =~= before.push((cfg.id@, "Invalid regex: "@ + e@)));
                        },
                    }
                },
                _ => {
                    active.push(true);
                    compiled.push(None);
                },
            }
        }
        i = i + 1;
        assert(errors_view(errors@) + step_errors_spec(steps@.skip(i as int)) =~= before
            + step_errors_spec(rest));
    }
    assert(steps@.skip(i as int) =~= Seq::<StepConfig>::empty());
    assert(errors_view(errors@) + step_errors_spec(steps@.skip(i as int)) =~= errors_view(errors@));
    (active, compiled, errors)
}

proof fn lemma_count_dir_step(entries: Seq<FileEntry>, i: int, dir: Seq<char>)
    requires
        0 <= i < entries.len(),
    ensures
        count_dir(entries, i + 1, dir) == count_dir(entries, i, dir) + if entries[i].parent_dir@
            == dir {
            1nat
        } else {
            0nat
        },
{
}

proof fn lemma_count_dir_bound(entries: Seq<FileEntry>, n: int, dir: Seq<char>)
    requires
        0 <= n,
    ensures
        count_dir(entries, n, dir) <= n,
    decreases n,
{
    if n > 0 {
        lemma_count_dir_bound(entries, n - 1, dir);
    }
}

/// Runs the enabled steps over one entry's name.
fn run_entry(
    steps: &Vec<StepConfig>,
    active: &Vec<bool>,
    compiled: &Vec<Option<CompiledRegex>>,
    e: &FileEntry,
    index: usize,
    dir_index: usize,
) -> (r: Option<NameParts>)
    requires
        active.len() == steps.len(),
        compiled.len() == steps.len(),
        forall|k: int| 0 <= k < steps.len() ==> active[k] == step_active(#[trigger] steps[k]),
        forall|k: int|
            0 <= k < steps.len() && (#[trigger] steps[k]).step is Regex && active[k] ==> (
            compiled[k] matches Some(c) && compiled_for(c, steps[k].step)),
    ensures
        match run_steps(steps@, e.stem@, e.ext@, e.id@, index as nat, dir_index as nat) {
            Some(p) => r matches Some(parts) && parts.stem@ == p.0 && parts.ext@ == p.1,
            None => r is None,
        },
{
    let mut parts = NameParts { stem: e.stem.clone(), ext: e.ext.clone() };
    let mut j: usize = 0;
    assert(steps@.skip(0) =~= steps@);
    while j < steps.len()
        invariant
            j <= steps.len(),
            active.len() == steps.len(),
            compiled.len() == steps.len(),
            forall|k: int| 0 <= k < steps.len() ==> active[k] == step_active(#[trigger] steps[k]),
            forall|k: int|
                0 <= k < steps.len() && (#[trigger] steps[k]).step is Regex && active[k] ==> (
                compiled[k] matches Some(c) && compiled_for(c, steps[k].step)),
            run_steps(steps@, e.stem@, e.ext@, e.id@, index as nat, dir_index as nat) == run_steps(
                steps@.skip(j as int),
                parts.stem@,
                parts.ext@,
                e.id@,
                index as nat,
                dir_index as nat,
            ),
        decreases steps.len() - j,
    {
        proof {
            lemma_run_steps_skip(
                steps@,
                j as int,
                parts.stem@,
                parts.ext@,
                e.id@,
                index as nat,
                dir_index as nat,
            );
        }
        if active[j] {
            let ok = apply_step(&steps[j], &compiled[j], &mut parts, &e.id, index, dir_index);
            if !ok {
                return None;
            }
        }
        j = j + 1;
    }
    assert(steps@.skip(j as int) =~= Seq::<StepConfig>::empty());
    Some(parts)
}

/// Run the pipeline over every entry and produce preview rows (without conflict checks).
/// `None` exactly when some step's arithmetic would overflow on some entry.
pub fn run_pipeline_checked(entries: &Vec<FileEntry>, pipeline: &Pipeline) -> (r: Option<
    (Vec<PreviewRow>, Vec<StepError>),
>)
    ensures
        r is Some <==> pipeline_fits(entries@, pipeline.steps@),
        r matches Some(out) ==> {
            &&& out.0.len() == entries.len()
            &&& forall|i: int|
                0 <= i < entries.len() ==> row_matches(
                    #[trigger] out.0[i],
                    pipeline.steps@,
                    entries@,
                    i,
                )
            &&& errors_view(out.1@) == step_errors_spec(pipeline.steps@)
        },
{
    let (active, compiled, errors) = prepare(pipeline);
    let mut dirs: Vec<String> = Vec::new();
    let mut counts: Vec<usize> = Vec::new();
    let mut rows: Vec<PreviewRow> = Vec::new();
    let mut i: usize = 0;
    while i < entries.len()
        invariant
            i <= entries.len(),
            active.len() == pipeline.steps.len(),
            compiled.len() == pipeline.steps.len(),
            forall|k: int|
                0 <= k < pipeline.steps.len() ==> active[k] == step_active(
                    #[trigger] pipeline.steps[k],
                ),
            forall|k: int|
                0 <= k < pipeline.steps.len() && (#[trigger] pipeline.steps[k]).step is Regex
                    && active[k] ==> (compiled[k] matches Some(c) && compiled_for(
                    c,
                    pipeline.steps[k].step,
                )),
            dirs.len() == counts.len(),
            forall|a: int, b: int|
                0 <= a < b < dirs.len() ==> (#[trigger] dirs[a])@ != (#[trigger] dirs[b])@,
            forall|k: int|
                0 <= k < dirs.len() ==> #[trigger] counts[k] == count_dir(entries@, i as int, dirs[k]@),
            forall|d: Seq<char>|
                #[trigger] count_dir(entries@, i as int, d) > 0 ==> exists|k: int|
                    0 <= k < dirs.len() && dirs[k]@ == d,
            rows.len() == i,
            forall|k: int|
                0 <= k < i ==> row_matches(#[trigger] rows[k], pipeline.steps@, entries@, k),
            forall|k: int| 0 <= k < i ==> (#[trigger] entry_run(pipeline.steps@, entries@, k)) is Some,
        decreases entries.len() - i,
    {
        let e = &entries[i];
        // Position of this entry within its directory, counted so far.
        let mut k: usize = 0;
        while k < dirs.len() && dirs[k] != e.parent_dir
            invariant
                k <= dirs.len(),
                forall|t: int| 0 <= t < k ==> #[trigger] dirs[t]@ != e.parent_dir@,
            decreases dirs.len() - k,
        {
            k = k + 1;
        }
        proof {
            lemma_count_dir_bound(entries@, i as int, e.parent_dir@);
        }
        let dir_index: usize;
        let ghost old_dirs = dirs@;
        let ghost old_counts = counts@;
        if k < dirs.len() {
            dir_index = counts[k];
            counts.set(k, dir_index + 1);
        } else {
            dir_index = 0;
            dirs.push(e.parent_dir.clone());
            counts.push(1);
        }
        assert(dir_index == dir_index_of(entries@, i as int));
        proof {
            assert forall|t: int| 0 <= t < dirs.len() implies #[trigger] counts[t] == count_dir(
                entries@,
                i + 1,
                dirs[t]@,
            ) by {
                lemma_count_dir_step(entries@, i as int, dirs[t]@);
                if t < old_dirs.len() {
                    assert(dirs[t] == old_dirs[t]);
                    if t != k {
                        assert(counts[t] == old_counts[t]);
                        if t < k {
                            assert(dirs[t]@ != e.parent_dir@);
                        } else {
                            assert(old_dirs[k as int]@ == e.parent_dir@);
                            assert(old_dirs[k as int]@ != old_dirs[t]@);
                        }
                    }
                } else {
                    assert(dirs[t]@ == e.parent_dir@);
                    if count_dir(entries@, i as int, e.parent_dir@) > 0 {
                        let u = choose|u: int| 0 <= u < old_dirs.len() && old_dirs[u]@ == e.parent_dir@;
                        assert(old_dirs[u]@ != e.parent_dir@);
                    }
                }
            }
            assert forall|a: int, b: int|
                0 <= a < b < dirs.len() implies (#[trigger] dirs[a])@ != (#[trigger] dirs[b])@ by {
                if b >= old_dirs.len() {
                    assert(dirs[a] == old_dirs[a]);
                } else {
                    assert(dirs[a] == old_dirs[a]);
                    assert(dirs[b] == old_dirs[b]);
                }
            }
            assert forall|d: Seq<char>| #[trigger] count_dir(entries@, i + 1, d) > 0 implies exists|
                t: int,
            | 0 <= t < dirs.len() && dirs[t]@ == d by {
                lemma_count_dir_step(entries@, i as int, d);
                if count_dir(entries@, i as int, d) > 0 {
                    let t = choose|t: int| 0 <= t < old_dirs.len() && old_dirs[t]@ == d;
                    assert(dirs[t] == old_dirs[t]);
                } else {
                    if k < old_dirs.len() {
                        assert(dirs[k as int]@ == d);
                    } else {
                        assert(dirs[k as int]@ == d);
                    }
                }
            }
        }
        match run_entry(&pipeline.steps, &active, &compiled, e, i, dir_index) {
            None => {
                assert(entry_run(pipeline.steps@, entries@, i as int) is None);
                return None;
            },
            Some(parts) => {
                let original = NameParts { stem: e.stem.clone(), ext: e.ext.clone() }.assemble();
                let new_name = parts.assemble();
                let status = if new_name == original {
                    RowStatus::Unchanged
                } else {
                    RowStatus::Changed
                };
                rows.push(
                    PreviewRow { id: e.id.clone(), original, new_name, status, message: None },
                );
                assert(row_matches(rows[i as int], pipeline.steps@, entries@, i as int));
            },
        }
        i = i + 1;
    }
    Some((rows, errors))
}

/// [`run_pipeline_checked`] for a pipeline known not to overflow.
pub fn run_pipeline(entries: &Vec<FileEntry>, pipeline: &Pipeline) -> (r: (
    Vec<PreviewRow>,
    Vec<StepError>,
))
    requires
        pipeline_fits(entries@, pipeline.steps@),
    ensures
        r.0.len() == entries.len(),
        forall|i: int|
            0 <= i < entries.len() ==> row_matches(#[trigger] r.0[i], pipeline.steps@, entries@, i),
        errors_view(r.1@) == step_errors_spec(pipeline.steps@),
{
    match run_pipeline_checked(entries, pipeline) {
        Some(out) => out,
        None => (Vec::new(), Vec::new()),
    }
}


/// What row `i` of a preview reads before conflict checks: id, new name, status (changed
/// exactly when the new name differs from the original) and no message.
pub open spec fn preview_view(steps: Seq<StepConfig>, entries: Seq<FileEntry>, i: int) -> (
    Seq<char>,
    Seq<char>,
    RowStatus,
    Option<Seq<char>>,
) {
    let e = entries[i];
    let orig = assemble_spec(e.stem@, e.ext@);
    let nn = match entry_run(steps, entries, i) {
        Some(p) => assemble_spec(p.0, p.1),
        None => orig,
    };
    (e.id@, nn, if nn == orig {
        RowStatus::Unchanged
    } else {
        RowStatus::Changed
    }, None)
}

/// The views of all preview rows before conflict checks.
pub open spec fn preview_views(steps: Seq<StepConfig>, entries: Seq<FileEntry>) -> Seq<
    (Seq<char>, Seq<char>, RowStatus, Option<Seq<char>>),
> {
    Seq::new(entries.len(), |i: int| preview_view(steps, entries, i))
}

/// The paths the preview's rows would be renamed to (see `row_target`), in entry order;
/// `None` exactly when some step's arithmetic would overflow on some entry.
pub fn preview_targets(entries: &Vec<FileEntry>, pipeline: &Pipeline) -> (r: Option<Vec<String>>)
    ensures
        r is Some <==> pipeline_fits(entries@, pipeline.steps@),
        r matches Some(t) ==> t.len() == entries.len() && forall|i: int|
            0 <= i < entries.len() ==> (#[trigger] t@[i])@ == row_target(
                entries@,
                preview_views(pipeline.steps@, entries@)[i],
            ),
{
    match run_pipeline_checked(entries, pipeline) {
        None => None,
        Some((rows, _)) => {
            let t = row_targets(entries, &rows);
            proof {
                assert forall|i: int| 0 <= i < entries.len() implies row_view(rows@[i])
                    == preview_views(pipeline.steps@, entries@)[i] by {
                    assert(row_matches(rows[i], pipeline.steps@, entries@, i));
                }
            }
            Some(t)
        },
    }
}

/// Full preview: run the pipeline, then annotate rows with conflict/validation status.
/// `exists[i]` says whether something exists at entry `i`'s target (see
/// `preview_targets`).
pub fn compute_preview(entries: &Vec<FileEntry>, pipeline: &Pipeline, exists: &Vec<bool>) -> (r:
    PreviewResult)
    requires
        pipeline_fits(entries@, pipeline.steps@),
        exists.len() == entries.len(),
    ensures
        r.rows.len() == entries.len(),
        forall|i: int|
            0 <= i < entries.len() ==> {
                let v = preview_view(pipeline.steps@, entries@, i);
                &&& (#[trigger] r.rows[i]).id@ == v.0
                &&& r.rows[i].original@ == assemble_spec(entries@[i].stem@, entries@[i].ext@)
                &&& r.rows[i].new_name@ == v.1
                &&& (r.rows[i].status, opt_string_view(r.rows[i].message)) == annotated(
                    entries@,
                    preview_views(pipeline.steps@, entries@),
                    exists@,
                    i,
                )
            },
        errors_view(r.step_errors@) == step_errors_spec(pipeline.steps@),
{
    let (mut rows, step_errors) = run_pipeline(entries, pipeline);
    proof {
        assert(rows_view(rows@) =~= preview_views(pipeline.steps@, entries@)) by {
            assert forall|i: int| 0 <= i < entries.len() implies rows_view(rows@)[i]
                == preview_views(pipeline.steps@, entries@)[i] by {
                assert(row_matches(rows[i], pipeline.steps@, entries@, i));
            }
        }
    }
    let ghost pre = rows@;
    annotate(entries, &mut rows, exists);
    proof {
        assert forall|i: int| 0 <= i < entries.len() implies rows[i].original@ == assemble_spec(
            entries@[i].stem@,
            entries@[i].ext@,
        ) by {
            assert(row_matches(pre[i], pipeline.steps@, entries@, i));
        }
    }
    PreviewResult { rows, step_errors }
}

} // verus!
