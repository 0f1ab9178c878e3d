//! The decisions behind the bring-your-own-key AI rename step: how files are chunked and
//! described to the model, how its lenient JSON reply is located, how suggestions are
//! reconciled with the files that were asked about, and how per-chunk outcomes merge into
//! one report. The network round trips themselves belong to the application.

use vstd::prelude::*;
use vstd::string::StringSliceAdditionalSpecFns;

use crate::conflicts::{is_control, is_invalid_char};
use crate::engine::opt_string_view;
use crate::steps::{collapse_go, collapse_ws};
use crate::text::{
    chars_eq, push_all, push_str, slice_chars, str_to_chars, string_from_chars, trim_chars,
    trim_end_char, trim_end_char_seq, trim_seq, trim_str,
};
use crate::types::{AiResultItem, FileEntry};

verus! {

// ---------------------------------------------------------------------------------------
// Sanitizing suggested names
// ---------------------------------------------------------------------------------------

/// Characters dropped from a suggestion: path separators and the other OS-invalid ones
/// except `:`.
pub open spec fn is_dropped_char(c: char) -> bool {
    c == '/' || c == '\\' || c == '<' || c == '>' || c == '"' || c == '|' || c == '?' || c == '*'
}

/// Per-character filter of a suggestion: dropped characters and control characters go,
/// `:` becomes ` -` (the usual title/subtitle separator), everything else stays.
pub open spec fn sanitize_filter(s: Seq<char>) -> Seq<char>
    decreases s.len(),
{
    if s.len() == 0 {
        seq![]
    } else {
        let c = s[0];
        (if is_dropped_char(c) {
            seq![]
        } else if c == ':' {
            seq![' ', '-']
        } else if is_control(c) {
            seq![]
        } else {
            seq![c]
        }) + sanitize_filter(s.drop_first())
    }
}

/// `s` without the suffix `suf` when it ends with it (`str::strip_suffix`), else `s`.
pub open spec fn strip_suffix_spec(s: Seq<char>, suf: Seq<char>) -> Seq<char> {
    if suf.len() <= s.len() && s.skip(s.len() - suf.len()) == suf {
        s.take(s.len() - suf.len())
    } else {
        s
    }
}

/// A suggested stem made safe: filtered, whitespace runs collapsed and trimmed, trailing
/// dots stripped, a leaked `.<ext>` suffix stripped, then trimmed of whitespace, trailing
/// dots and whitespace once more.
pub open spec fn sanitize_spec(name: Seq<char>, ext: Seq<char>) -> Seq<char> {
    let collapsed = trim_seq(collapse_go(sanitize_filter(name), false));
    let trimmed_dot = trim_end_char_seq(collapsed, '.');
    let stem = if ext.len() == 0 {
        trimmed_dot
    } else {
        strip_suffix_spec(trimmed_dot, seq!['.'] + ext)
    };
    trim_seq(trim_end_char_seq(trim_seq(stem), '.'))
}

/// Every character of `s` may stand in a filename: none is invalid or a control character.
pub open spec fn clean_chars(s: Seq<char>) -> bool {
    forall|k: int| 0 <= k < s.len() ==> !is_invalid_char(#[trigger] s[k]) && !is_control(s[k])
}

proof fn lemma_clean_drop_first(s: Seq<char>)
    requires
        s.len() > 0,
        clean_chars(s),
    ensures
        clean_chars(s.drop_first()),
{
    assert forall|k: int| 0 <= k < s.len() - 1 implies !is_invalid_char(#[trigger] s.drop_first()[k])
        && !is_control(s.drop_first()[k]) by {
        assert(s.drop_first()[k] == s[k + 1]);
    }
}

proof fn lemma_clean_drop_last(s: Seq<char>)
    requires
        s.len() > 0,
        clean_chars(s),
    ensures
        clean_chars(s.drop_last()),
{
    assert forall|k: int| 0 <= k < s.len() - 1 implies !is_invalid_char(#[trigger] s.drop_last()[k])
        && !is_control(s.drop_last()[k]) by {
        assert(s.drop_last()[k] == s[k]);
    }
}

proof fn lemma_clean_concat(a: Seq<char>, b: Seq<char>)
    requires
        clean_chars(a),
        clean_chars(b),
    ensures
        clean_chars(a + b),
{
    assert forall|k: int| 0 <= k < (a + b).len() implies !is_invalid_char(#[trigger] (a + b)[k])
        && !is_control((a + b)[k]) by {
        if k < a.len() {
            assert((a + b)[k] == a[k]);
        } else {
            assert((a + b)[k] == b[k - a.len()]);
        }
    }
}

proof fn lemma_filter_clean(s: Seq<char>)
    ensures
        clean_chars(sanitize_filter(s)),
    decreases s.len(),
{
    if s.len() > 0 {
        lemma_filter_clean(s.drop_first());
        let c = s[0];
        let head: Seq<char> = if is_dropped_char(c) {
            seq![]
        } else if c == ':' {
            seq![' ', '-']
        } else if is_control(c) {
            seq![]
        } else {
            seq![c]
        };
        assert(clean_chars(head));
        lemma_clean_concat(head, sanitize_filter(s.drop_first()));
    }
}

proof fn lemma_collapse_clean(s: Seq<char>, in_ws: bool)
    requires
        clean_chars(s),
    ensures
        clean_chars(collapse_go(s, in_ws)),
    decreases s.len(),
{
    if s.len() > 0 {
        lemma_clean_drop_first(s);
        if crate::text::is_ws(s[0]) {
            lemma_collapse_clean(s.drop_first(), true);
            let head: Seq<char> = if in_ws {
                seq![]
            } else {
                seq![' ']
            };
            lemma_clean_concat(head, collapse_go(s.drop_first(), true));
        } else {
            lemma_collapse_clean(s.drop_first(), false);
            assert(clean_chars(seq![s[0]]));
            lemma_clean_concat(seq![s[0]], collapse_go(s.drop_first(), false));
        }
    }
}

proof fn lemma_trim_start_clean(s: Seq<char>)
    requires
        clean_chars(s),
    ensures
        clean_chars(crate::text::trim_start_seq(s)),
    decreases s.len(),
{
    if s.len() > 0 {
        lemma_clean_drop_first(s);
        lemma_trim_start_clean(s.drop_first());
    }
}

proof fn lemma_trim_clean(s: Seq<char>)
    requires
        clean_chars(s),
    ensures
        clean_chars(trim_seq(s)),
{
    lemma_trim_start_clean(s);
    lemma_trim_end_only_clean(crate::text::trim_start_seq(s));
}

proof fn lemma_trim_end_only_clean(s: Seq<char>)
    requires
        clean_chars(s),
    ensures
        clean_chars(crate::text::trim_end_seq(s)),
    decreases s.len(),
{
    if s.len() > 0 {
        lemma_clean_drop_last(s);
        lemma_trim_end_only_clean(s.drop_last());
    }
}

proof fn lemma_trim_end_char_clean(s: Seq<char>, c: char)
    requires
        clean_chars(s),
    ensures
        clean_chars(trim_end_char_seq(s, c)),
    decreases s.len(),
{
    if s.len() > 0 {
        lemma_clean_drop_last(s);
        lemma_trim_end_char_clean(s.drop_last(), c);
    }
}

/// A sanitized suggestion holds no character that is invalid in a filename or a control
/// character: separators and the other invalid characters are gone and `:` became ` -`.
pub proof fn lemma_sanitized_name_is_clean(name: Seq<char>, ext: Seq<char>)
    ensures
        clean_chars(sanitize_spec(name, ext)),
{
    let f = sanitize_filter(name);
    lemma_filter_clean(name);
    lemma_collapse_clean(f, false);
    let collapsed = trim_seq(collapse_go(f, false));
    lemma_trim_clean(collapse_go(f, false));
    let trimmed_dot = trim_end_char_seq(collapsed, '.');
    lemma_trim_end_char_clean(collapsed, '.');
    let stem = if ext.len() == 0 {
        trimmed_dot
    } else {
        strip_suffix_spec(trimmed_dot, seq!['.'] + ext)
    };
    assert(clean_chars(stem)) by {
        if ext.len() > 0 {
            let suf = seq!['.'] + ext;
            if suf.len() <= trimmed_dot.len() && trimmed_dot.skip(trimmed_dot.len() - suf.len())
                == suf {
                let t = trimmed_dot.take(trimmed_dot.len() - suf.len());
                assert forall|k: int| 0 <= k < t.len() implies !is_invalid_char(#[trigger] t[k])
                    && !is_control(t[k]) by {
                    assert(t[k] == trimmed_dot[k]);
                }
            }
        }
    }
    lemma_trim_clean(stem);
    lemma_trim_end_char_clean(trim_seq(stem), '.');
    lemma_trim_clean(trim_end_char_seq(trim_seq(stem), '.'));
}

fn sanitize_filter_exec(s: &Vec<char>) -> (r: Vec<char>)
    ensures
        r@ == sanitize_filter(s@),
{
    let mut out: Vec<char> = Vec::new();
    let mut i: usize = 0;
    assert(s@.skip(0) =~= s@);
    while i < s.len()
        invariant
            i <= s.len(),
            out@ + sanitize_filter(s@.skip(i as int)) == sanitize_filter(s@),
        decreases s.len() - i,
    {
        let c = s[i];
        let ghost rest = s@.skip(i as int);
        let ghost before = out@;
        assert(rest.drop_first() =~= s@.skip(i + 1));
        assert(rest[0] == c);
        if c == '/' || c == '\\' || c == '<' || c == '>' || c == '"' || c == '|' || c == '?' || c
            == '*' {
        } else if c == ':' {
            out.push(' ');
            out.push('-');
        } else if ' ' > c {
        } else {
            out.push(c);
        }
        i = i + 1;
        assert(out@ + sanitize_filter(s@.skip(i as int)) =~= before + sanitize_filter(rest));
    }
    assert(out@ + sanitize_filter(s@.skip(i as int)) =~= out@);
    out
}

fn strip_suffix(s: &Vec<char>, suf: &Vec<char>) -> (r: Vec<char>)
    ensures
        r@ == strip_suffix_spec(s@, suf@),
{
    if suf.len() <= s.len() {
        let tail = slice_chars(s, s.len() - suf.len(), s.len());
        assert(tail@ =~= s@.skip(s.len() - suf.len()));
        if chars_eq(&tail, suf) {
            return slice_chars(s, 0, s.len() - suf.len());
        }
    }
    slice_chars(s, 0, s.len())
}

/// Make a suggested name safe to use as a stem: no path separators or other invalid
/// characters, `:` written as ` -`, no control characters, no leaked extension, no
/// leading/trailing whitespace, and trailing dots stripped once after each trim (a name
/// like `a. . .` can still end with a dot, which validation then reports).
pub fn sanitize_name(name: &str, ext: &str) -> (r: String)
    ensures
        r@ == sanitize_spec(name@, ext@),
{
    let chars = str_to_chars(name);
    let filtered = sanitize_filter_exec(&chars);
    let collapsed = trim_chars(&collapse_ws(&filtered));
    let trimmed_dot = trim_end_char(&collapsed, '.');
    let ext_chars = str_to_chars(ext);
    let stem = if ext_chars.len() == 0 {
        trimmed_dot
    } else {
        let mut suf: Vec<char> = Vec::new();
        suf.push('.');
        push_all(&mut suf, &ext_chars);
        assert(suf@ =~= seq!['.'] + ext@);
        strip_suffix(&trimmed_dot, &suf)
    };
    let t1 = trim_chars(&stem);
    let t2 = trim_end_char(&t1, '.');
    let t3 = trim_chars(&t2);
    string_from_chars(t3.as_slice())
}

// ---------------------------------------------------------------------------------------
// Reconciling suggestions with the files asked about
// ---------------------------------------------------------------------------------------

/// The views of a list of strings.
pub open spec fn strings_view(v: Seq<String>) -> Seq<Seq<char>> {
    v.map_values(|s: String| s@)
}

/// The (id, new name) views of a list of suggestions.
pub open spec fn items_view(v: Seq<AiResultItem>) -> Seq<(Seq<char>, Seq<char>)> {
    v.map_values(|it: AiResultItem| (it.id@, it.new_name@))
}

/// The extension of the file with this id: that of the last file with it (a map built from
/// the chunk keeps the last), or empty.
pub open spec fn ext_of(ids: Seq<Seq<char>>, exts: Seq<Seq<char>>, id: Seq<char>) -> Seq<char>
    decreases ids.len(),
{
    if ids.len() == 0 || exts.len() == 0 {
        seq![]
    } else if ids.last() == id {
        exts.last()
    } else {
        ext_of(ids.drop_last(), exts.drop_last(), id)
    }
}

/// The kept suggestions: those whose id was asked about, with sanitized names, in the
/// model's order.
pub open spec fn kept_items(
    items: Seq<(Seq<char>, Seq<char>)>,
    ids: Seq<Seq<char>>,
    exts: Seq<Seq<char>>,
) -> Seq<(Seq<char>, Seq<char>)>
    decreases items.len(),
{
    if items.len() == 0 {
        seq![]
    } else {
        let rest = kept_items(items.drop_last(), ids, exts);
        let it = items.last();
        if ids.contains(it.0) {
            rest.push((it.0, sanitize_spec(it.1, ext_of(ids, exts, it.0))))
        } else {
            rest
        }
    }
}

/// Number of suggestions whose id was not asked about (hallucinated ids).
pub open spec fn unknown_count(items: Seq<(Seq<char>, Seq<char>)>, ids: Seq<Seq<char>>) -> nat
    decreases items.len(),
{
    if items.len() == 0 {
        0
    } else {
        unknown_count(items.drop_last(), ids) + if ids.contains(items.last().0) {
            0nat
        } else {
            1nat
        }
    }
}

/// Number of kept suggestions that sanitizing changed (beyond trimming).
pub open spec fn sanitized_count_spec(
    items: Seq<(Seq<char>, Seq<char>)>,
    ids: Seq<Seq<char>>,
    exts: Seq<Seq<char>>,
) -> nat
    decreases items.len(),
{
    if items.len() == 0 {
        0
    } else {
        let it = items.last();
        sanitized_count_spec(items.drop_last(), ids, exts) + if ids.contains(it.0)
            && sanitize_spec(it.1, ext_of(ids, exts, it.0)) != trim_seq(it.1) {
            1nat
        } else {
            0nat
        }
    }
}

/// The ids asked about that no suggestion answers, each once, in the order asked.
pub open spec fn missing_spec(ids: Seq<Seq<char>>, answered: Seq<Seq<char>>) -> Seq<Seq<char>>
    decreases ids.len(),
{
    if ids.len() == 0 {
        seq![]
    } else {
        let rest = missing_spec(ids.drop_last(), answered);
        let id = ids.last();
        if !ids.drop_last().contains(id) && !answered.contains(id) {
            rest.push(id)
        } else {
            rest
        }
    }
}

/// Outcome of reconciling one chunk's suggestions.
pub struct ReconcileReport {
    pub items: Vec<AiResultItem>,
    pub model_count: usize,
    pub dropped_unknown: usize,
    pub sanitized_count: usize,
    pub missing_ids: Vec<String>,
}

fn contains_string(v: &Vec<String>, s: &String, upto: usize) -> (r: bool)
    requires
        upto <= v.len(),
    ensures
        r == strings_view(v@).take(upto as int).contains(s@),
{
    let mut k: usize = 0;
    while k < upto
        invariant
            k <= upto <= v.len(),
            forall|t: int| 0 <= t < k ==> v@[t]@ != s@,
        decreases upto - k,
    {
        if v[k] == *s {
            assert(strings_view(v@).take(upto as int)[k as int] == s@);
            return true;
        }
        k = k + 1;
    }
    assert forall|t: int| 0 <= t < upto implies strings_view(v@).take(upto as int)[t] != s@ by {
        assert(strings_view(v@).take(upto as int)[t] == v@[t]@);
    }
    false
}

fn answered_by(items: &Vec<AiResultItem>, id: &String) -> (r: bool)
    ensures
        r == items_view(items@).map_values(|it: (Seq<char>, Seq<char>)| it.0).contains(id@),
{
    let ghost a = items_view(items@).map_values(|it: (Seq<char>, Seq<char>)| it.0);
    let mut k: usize = 0;
    while k < items.len()
        invariant
            k <= items.len(),
            a == items_view(items@).map_values(|it: (Seq<char>, Seq<char>)| it.0),
            forall|t: int| 0 <= t < k ==> items@[t].id@ != id@,
        decreases items.len() - k,
    {
        if items[k].id == *id {
            assert(a[k as int] == id@);
            return true;
        }
        k = k + 1;
    }
    assert forall|t: int| 0 <= t < a.len() implies a[t] != id@ by {
        assert(a[t] == items@[t].id@);
    }
    false
}

fn ext_lookup(ids: &Vec<String>, exts: &Vec<String>, id: &String) -> (r: String)
    requires
        ids.len() == exts.len(),
    ensures
        r@ == ext_of(strings_view(ids@), strings_view(exts@), id@),
{
    let mut j: usize = ids.len();
    assert(strings_view(ids@).take(j as int) =~= strings_view(ids@));
    assert(strings_view(exts@).take(j as int) =~= strings_view(exts@));
    while j > 0
        invariant
            j <= ids.len() == exts.len(),
            ext_of(strings_view(ids@), strings_view(exts@), id@) == ext_of(
                strings_view(ids@).take(j as int),
                strings_view(exts@).take(j as int),
                id@,
            ),
        decreases j,
    {
        let ghost ti = strings_view(ids@).take(j as int);
        let ghost te = strings_view(exts@).take(j as int);
        assert(ti.drop_last() =~= strings_view(ids@).take(j - 1));
        assert(te.drop_last() =~= strings_view(exts@).take(j - 1));
        if ids[j - 1] == *id {
            return exts[j - 1].clone();
        }
        j = j - 1;
    }
    String::new()
}

/// Drop hallucinated ids and sanitize each `newName` (no path separators, no leaked
/// extension). `exts[k]` is the extension of the file with id `ids[k]`. Duplicate ids are
/// left as they are, in the model's order.
pub fn reconcile(items: Vec<AiResultItem>, ids: &Vec<String>, exts: &Vec<String>) -> (r:
    ReconcileReport)
    requires
        ids.len() == exts.len(),
    ensures
        r.model_count == items.len(),
        items_view(r.items@) == kept_items(items_view(items@), strings_view(ids@), strings_view(exts@)),
        r.dropped_unknown == unknown_count(items_view(items@), strings_view(ids@)),
        r.sanitized_count == sanitized_count_spec(
            items_view(items@),
            strings_view(ids@),
            strings_view(exts@),
        ),
        strings_view(r.missing_ids@) == missing_spec(
            strings_view(ids@),
            items_view(items@).map_values(|it: (Seq<char>, Seq<char>)| it.0),
        ),
{
    let ghost iv = items_view(items@);
    let ghost idv = strings_view(ids@);
    let ghost exv = strings_view(exts@);
    let model_count = items.len();
    let mut dropped_unknown: usize = 0;
    let mut sanitized_count: usize = 0;
    let mut out: Vec<AiResultItem> = Vec::new();
    let mut i: usize = 0;
    while i < items.len()
        invariant
            i <= items.len(),
            iv == items_view(items@),
            ids.len() == exts.len(),
            idv == strings_view(ids@),
            exv == strings_view(exts@),
            items_view(out@) == kept_items(iv.take(i as int), idv, exv),
            dropped_unknown == unknown_count(iv.take(i as int), idv),
            sanitized_count == sanitized_count_spec(iv.take(i as int), idv, exv),
            dropped_unknown <= i,
            sanitized_count <= i,
        decreases items.len() - i,
    {
        let it = &items[i];
        let ghost prefix = iv.take(i as int);
        assert(iv.take(i + 1).drop_last() =~= prefix);
        assert(iv.take(i + 1).last() == iv[i as int]);
        assert(iv[i as int] == (it.id@, it.new_name@));
        let known = contains_string(ids, &it.id, ids.len());
        proof {
            assert(strings_view(ids@).take(ids.len() as int) =~= idv);
        }
        if !known {
            dropped_unknown = dropped_unknown + 1;
        } else {
            let ext = ext_lookup(ids, exts, &it.id);
            let new_name = sanitize_name(it.new_name.as_str(), ext.as_str());
            let raw_trim = trim_str(it.new_name.as_str());
            let nv = str_to_chars(new_name.as_str());
            if !chars_eq(&nv, &raw_trim) {
                sanitized_count = sanitized_count + 1;
            }
            let ghost o0 = items_view(out@);
            out.push(AiResultItem { id: it.id.clone(), new_name });
            assert(items_view(out@) =~= o0.push(
                (iv[i as int].0, sanitize_spec(iv[i as int].1, ext_of(idv, exv, iv[i as int].0))),
            ));
        }
        i = i + 1;
    }
    assert(iv.take(i as int) =~= iv);
    // Ids asked about that no suggestion answered, each once.
    let mut missing_ids: Vec<String> = Vec::new();
    let mut k: usize = 0;
    let ghost answered_v = iv.map_values(|it: (Seq<char>, Seq<char>)| it.0);
    while k < ids.len()
        invariant
            k <= ids.len(),
            idv == strings_view(ids@),
            iv == items_view(items@),
            answered_v == iv.map_values(|it: (Seq<char>, Seq<char>)| it.0),
            strings_view(missing_ids@) == missing_spec(idv.take(k as int), answered_v),
        decreases ids.len() - k,
    {
        let ghost pre = idv.take(k as int);
        assert(idv.take(k + 1).drop_last() =~= pre);
        assert(idv.take(k + 1).last() == ids@[k as int]@);
        let seen = contains_string(ids, &ids[k], k);
        let hit = answered_by(&items, &ids[k]);
        proof {
            assert(strings_view(ids@).take(k as int) =~= pre);
        }
        if !seen && !hit {
            let ghost m0 = strings_view(missing_ids@);
            missing_ids.push(ids[k].clone());
            assert(strings_view(missing_ids@) =~= m0.push(ids@[k as int]@));
        }
        k = k + 1;
    }
    assert(idv.take(ids.len() as int) =~= idv);
    ReconcileReport { items: out, model_count, dropped_unknown, sanitized_count, missing_ids }
}


proof fn lemma_clean_has_no_bad_char(s: Seq<char>)
    requires
        clean_chars(s),
    ensures
        crate::conflicts::first_bad_char(s) is None,
    decreases s.len(),
{
    if s.len() > 0 {
        lemma_clean_drop_first(s);
        lemma_clean_has_no_bad_char(s.drop_first());
    }
}

/// The preview never flags a sanitized suggestion for an invalid or control character: if
/// it rejects one at all, it is for being blank or for ending with a space or a dot.
pub proof fn lemma_sanitized_name_passes_char_checks(name: Seq<char>, ext: Seq<char>)
    ensures
        match crate::conflicts::validate_name_spec(sanitize_spec(name, ext)) {
            Some(m) => m == "Name is empty"@ || m == "Name ends with a space or dot"@,
            None => true,
        },
{
    lemma_sanitized_name_is_clean(name, ext);
    lemma_clean_has_no_bad_char(sanitize_spec(name, ext));
}

/// Reconciling keeps only suggestions for files that were asked about, and every kept name
/// is clean.
pub proof fn lemma_reconcile_keeps_known(
    items: Seq<(Seq<char>, Seq<char>)>,
    ids: Seq<Seq<char>>,
    exts: Seq<Seq<char>>,
)
    ensures
        forall|k: int|
            0 <= k < kept_items(items, ids, exts).len() ==> ids.contains(
                (#[trigger] kept_items(items, ids, exts)[k]).0,
            ) && clean_chars(kept_items(items, ids, exts)[k].1),
    decreases items.len(),
{
    if items.len() > 0 {
        lemma_reconcile_keeps_known(items.drop_last(), ids, exts);
        let it = items.last();
        lemma_sanitized_name_is_clean(it.1, ext_of(ids, exts, it.0));
        let rest = kept_items(items.drop_last(), ids, exts);
        let out = kept_items(items, ids, exts);
        assert forall|k: int| 0 <= k < out.len() implies ids.contains((#[trigger] out[k]).0)
            && clean_chars(out[k].1) by {
            if k < rest.len() {
                assert(out[k] == rest[k]);
            }
        }
    }
}

// ---------------------------------------------------------------------------------------
// Chunking
// ---------------------------------------------------------------------------------------

/// Chunk `k` of `n` entries cut into pieces of `size`: entries `k*size` up to (not
/// including) `min((k+1)*size, n)`.
pub open spec fn chunk_bounds(k: int, size: int, n: int) -> (int, int) {
    (k * size, if (k + 1) * size < n {
        (k + 1) * size
    } else {
        n
    })
}

/// Split `entries` into contiguous, order-preserving, owned chunks of at most `size` (at
/// least 1). No entries give no chunks.
pub fn chunk_entries(entries: Vec<FileEntry>, size: usize) -> (r: Vec<Vec<FileEntry>>)
    ensures
        ({
            let s = if size == 0 {
                1int
            } else {
                size as int
            };
            let n = entries.len() as int;
            &&& r.len() == (n + s - 1) / s
            &&& forall|k: int|
                0 <= k < r.len() ==> (#[trigger] r[k])@ == entries@.subrange(
                    chunk_bounds(k, s, n).0,
                    chunk_bounds(k, s, n).1,
                )
        }),
{
    let ghost all = entries@;
    let ghost n = entries.len() as int;
    let s: usize = if size == 0 {
        1
    } else {
        size
    };
    let mut chunks: Vec<Vec<FileEntry>> = Vec::new();
    let mut rest = entries;
    let ghost mut taken: int = 0;
    assert(0 * (s as int) == 0) by (nonlinear_arith);
    assert(all.skip(0) =~= all);
    while rest.len() > 0
        invariant
            s >= 1,
            0 <= taken <= n,
            n == all.len(),
            rest@ == all.skip(taken),
            taken < n ==> taken == chunks.len() * s,
            taken <= chunks.len() * s,
            chunks.len() > 0 ==> taken > (chunks.len() - 1) * s,
            forall|k: int|
                0 <= k < chunks.len() ==> (#[trigger] chunks[k])@ == all.subrange(
                    chunk_bounds(k, s as int, n).0,
                    chunk_bounds(k, s as int, n).1,
                ),
        decreases rest.len(),
    {
        let m = if rest.len() < s {
            rest.len()
        } else {
            s
        };
        let tail = rest.split_off(m);
        let ghost k = chunks.len() as int;
        proof {
            assert((k + 1) * (s as int) == k * (s as int) + s) by (nonlinear_arith);
            assert(rest@ =~= all.subrange(taken, taken + m));
            assert(taken == k * s);
            assert(chunk_bounds(k, s as int, n) == (taken, taken + m));
        }
        chunks.push(rest);
        rest = tail;
        proof {
            taken = taken + m;
            assert(rest@ =~= all.skip(taken));
            assert((chunks.len() - 1) * (s as int) == k * (s as int)) by (nonlinear_arith)
                requires
                    chunks.len() == k + 1,
            ;
        }
    }
    proof {
        let c = chunks.len() as int;
        let si = s as int;
        assert(taken == n);
        if c == 0 {
            assert(c * si == 0) by (nonlinear_arith)
                requires
                    c == 0,
            ;
        }
        assert(c * si + (n + si - 1 - c * si) == n + si - 1);
        assert((c - 1) * si == c * si - si) by (nonlinear_arith);
        vstd::arithmetic::div_mod::lemma_fundamental_div_mod_converse(
            n + si - 1,
            si,
            c,
            n + si - 1 - c * si,
        );
    }
    chunks
}


/// The chunks of `n` entries cut at `s` cover the entries without gap or overlap, in order:
/// the first starts at the first entry, the last ends at the last, each ends where the
/// next starts, and none is empty or longer than `s`.
pub proof fn lemma_chunks_cover(n: int, s: int)
    requires
        n >= 0,
        s >= 1,
    ensures
        ({
            let c = (n + s - 1) / s;
            &&& n > 0 ==> chunk_bounds(0, s, n).0 == 0 && chunk_bounds(c - 1, s, n).1 == n
            &&& n == 0 ==> c == 0
            &&& forall|k: int|
                0 <= k < c - 1 ==> (#[trigger] chunk_bounds(k, s, n)).1 == chunk_bounds(k + 1, s, n).0
            &&& forall|k: int|
                0 <= k < c ==> (#[trigger] chunk_bounds(k, s, n)).0 < chunk_bounds(k, s, n).1
                    <= chunk_bounds(k, s, n).0 + s
        }),
{
    let c = (n + s - 1) / s;
    vstd::arithmetic::div_mod::lemma_fundamental_div_mod(n + s - 1, s);
    let r = (n + s - 1) % s;
    assert(0 <= r < s);
    assert(c * s + r == n + s - 1);
    assert(c * s >= n);
    assert((c - 1) * s < n) by (nonlinear_arith)
        requires
            c * s + r == n + s - 1,
            0 <= r < s,
    ;
    if n == 0 {
        assert(c == 0) by (nonlinear_arith)
            requires
                c * s + r == s - 1,
                0 <= r < s,
                s >= 1,
        ;
    }
    assert forall|k: int| 0 <= k < c - 1 implies (#[trigger] chunk_bounds(k, s, n)).1
        == chunk_bounds(k + 1, s, n).0 by {
        assert((k + 1) * s <= (c - 1) * s) by (nonlinear_arith)
            requires
                k + 1 <= c - 1,
                s >= 1,
        ;
    }
    assert forall|k: int| 0 <= k < c implies (#[trigger] chunk_bounds(k, s, n)).0 < chunk_bounds(
        k,
        s,
        n,
    ).1 <= chunk_bounds(k, s, n).0 + s by {
        assert(k * s <= (c - 1) * s) by (nonlinear_arith)
            requires
                k <= c - 1,
                s >= 1,
        ;
        assert((k + 1) * s == k * s + s) by (nonlinear_arith);
    }
    if n > 0 {
        assert(c >= 1) by (nonlinear_arith)
            requires
                c * s >= n,
                n > 0,
                s >= 1,
        ;
        assert(c * s == (c - 1) * s + s) by (nonlinear_arith);
    }
}

// ---------------------------------------------------------------------------------------
// Mock suggestions
// ---------------------------------------------------------------------------------------

/// How a mocked chunk turns each file's stem into a "suggestion".
#[derive(Clone, Copy, Debug, PartialEq, Eq, Structural)]
pub enum MockTransform {
    Suffix,
    Uppercase,
    Lowercase,
    Reverse,
    Slugify,
}

/// `char::to_ascii_lowercase`.
pub open spec fn ascii_lower(c: char) -> char {
    if 'A' <= c && c <= 'Z' {
        ((c as u32) + 32) as char
    } else {
        c
    }
}

/// Alphanumeric characters ASCII-lowercased, every other character turned into `-`.
pub open spec fn slug_map(s: Seq<char>) -> Seq<char> {
    s.map_values(|c: char| if crate::text::is_alphanumeric_char(c) {
        ascii_lower(c)
    } else {
        '-'
    })
}

/// The `-`-separated pieces of `s` that are not empty, joined with single `-`s: runs of
/// `-` become one, and none is left at either end. `started`: a piece has been emitted;
/// `pending`: a `-` is owed before the next piece.
pub open spec fn slug_go(s: Seq<char>, started: bool, pending: bool) -> Seq<char>
    decreases s.len(),
{
    if s.len() == 0 {
        seq![]
    } else if s[0] == '-' {
        slug_go(s.drop_first(), started, started)
    } else {
        (if pending {
            seq!['-']
        } else {
            seq![]
        }) + seq![s[0]] + slug_go(s.drop_first(), true, false)
    }
}

/// What each mock transform makes of a stem.
pub open spec fn mock_transform_spec(transform: MockTransform, stem: Seq<char>) -> Seq<char> {
    match transform {
        MockTransform::Suffix => stem + "_mock"@,
        MockTransform::Uppercase => crate::text::str_upper(stem),
        MockTransform::Lowercase => crate::text::str_lower(stem),
        MockTransform::Reverse => stem.reverse(),
        MockTransform::Slugify => slug_go(slug_map(stem), false, false),
    }
}

fn ascii_lower_exec(c: char) -> (r: char)
    ensures
        r == ascii_lower(c),
{
    if 'A' <= c && c <= 'Z' {
        let b: u8 = (c as u8) + 32;
        b as char
    } else {
        c
    }
}

fn slugify(s: &Vec<char>) -> (r: Vec<char>)
    ensures
        r@ == slug_go(slug_map(s@), false, false),
{
    let mut mapped: Vec<char> = Vec::new();
    let mut i: usize = 0;
    while i < s.len()
        invariant
            i <= s.len(),
            mapped@ == slug_map(s@.take(i as int)),
        decreases s.len() - i,
    {
        let c = s[i];
        let m = if crate::text::char_is_alphanumeric(c) {
            ascii_lower_exec(c)
        } else {
            '-'
        };
        mapped.push(m);
        i = i + 1;
        assert(mapped@ =~= slug_map(s@.take(i as int)));
    }
    assert(s@.take(s.len() as int) =~= s@);
    let mut out: Vec<char> = Vec::new();
    let mut started = false;
    let mut pending = false;
    let mut j: usize = 0;
    assert(mapped@.skip(0) =~= mapped@);
    while j < mapped.len()
        invariant
            j <= mapped.len(),
            out@ + slug_go(mapped@.skip(j as int), started, pending) == slug_go(
                mapped@,
                false,
                false,
            ),
        decreases mapped.len() - j,
    {
        let c = mapped[j];
        let ghost rest = mapped@.skip(j as int);
        let ghost st = started;
        let ghost pd = pending;
        let ghost before = out@;
        assert(rest.drop_first() =~= mapped@.skip(j + 1));
        assert(rest[0] == c);
        if c == '-' {
            pending = started;
        } else {
            if pending {
                out.push('-');
            }
            out.push(c);
            started = true;
            pending = false;
        }
        j = j + 1;
        assert(out@ + slug_go(mapped@.skip(j as int), started, pending) =~= before + slug_go(
            rest,
            st,
            pd,
        ));
    }
    assert(out@ + slug_go(mapped@.skip(j as int), started, pending) =~= out@);
    out
}

/// Deterministic transform of a stem for mocked AI suggestions.
pub fn apply_mock_transform(transform: MockTransform, stem: &str) -> (r: String)
    ensures
        r@ == mock_transform_spec(transform, stem@),
{
    let chars = str_to_chars(stem);
    let out: Vec<char> = match transform {
        MockTransform::Suffix => {
            let mut v = chars;
            push_str(&mut v, "_mock");
            v
        },
        MockTransform::Uppercase => crate::text::upper_chars(&chars),
        MockTransform::Lowercase => crate::text::lower_chars(&chars),
        MockTransform::Reverse => {
            let mut v: Vec<char> = Vec::new();
            let mut k: usize = chars.len();
            while k > 0
                invariant
                    k <= chars.len(),
                    v@ == chars@.skip(k as int).reverse(),
                decreases k,
            {
                v.push(chars[k - 1]);
                k = k - 1;
                assert(v@ =~= chars@.skip(k as int).reverse());
            }
            assert(chars@.skip(0) =~= chars@);
            v
        },
        MockTransform::Slugify => slugify(&chars),
    };
    string_from_chars(out.as_slice())
}


// ---------------------------------------------------------------------------------------
// Prompts
// ---------------------------------------------------------------------------------------

/// The instruction sent as the system prompt, with the length limit filled in.
pub open spec fn system_prompt_spec(max_len: nat) -> Seq<char> {
    "You rename files. Given a JSON array of files (each `id`, current `name` without extension, `ext`, `parentHint`) and an instruction, return ONLY {\"results\":[{\"id\":\"...\",\"newName\":\"...\"}]}. Keep each `id` exactly; one result per file; `newName` is the stem only — never an extension, path, or separator; use only characters valid in filenames — no `: < > \" / \\ | ? *` or control characters — and write subtitles as \" - \" instead of a colon, e.g. \"Title - Subtitle\" not \"Title: Subtitle\"; keep under "@
        + crate::text::dec_digits(max_len)
        + " chars; don't invent ids. Use your general knowledge to follow the instruction — e.g. adding a known author, date, or topic — even if that information isn't present in the filename itself, but don't invent an author, date, or detail you're not reasonably confident about. `parentHint` is the enclosing folder name — useful context (e.g. series, author, or subject) but never to be copied verbatim into `newName` unless it genuinely belongs there. Only echo the original name when you cannot confidently improve it at all."@
}

/// The system prompt for a given name-length limit.
pub fn system_prompt(max_len: u32) -> (r: String)
    ensures
        r@ == system_prompt_spec(max_len as nat),
{
    let mut out = str_to_chars(
        "You rename files. Given a JSON array of files (each `id`, current `name` without extension, `ext`, `parentHint`) and an instruction, return ONLY {\"results\":[{\"id\":\"...\",\"newName\":\"...\"}]}. Keep each `id` exactly; one result per file; `newName` is the stem only — never an extension, path, or separator; use only characters valid in filenames — no `: < > \" / \\ | ? *` or control characters — and write subtitles as \" - \" instead of a colon, e.g. \"Title - Subtitle\" not \"Title: Subtitle\"; keep under ",
    );
    let d = crate::text::u64_to_dec(max_len as u64);
    push_all(&mut out, &d);
    push_str(
        &mut out,
        " chars; don't invent ids. Use your general knowledge to follow the instruction — e.g. adding a known author, date, or topic — even if that information isn't present in the filename itself, but don't invent an author, date, or detail you're not reasonably confident about. `parentHint` is the enclosing folder name — useful context (e.g. series, author, or subject) but never to be copied verbatim into `newName` unless it genuinely belongs there. Only echo the original name when you cannot confidently improve it at all.",
    );
    string_from_chars(out.as_slice())
}

/// One file as described to the model: id, current stem, extension, enclosing folder and
/// its index in the whole batch.
pub struct PromptFile {
    pub id: String,
    pub name: String,
    pub ext: String,
    pub parent_hint: String,
    pub index: usize,
}

/// What the model is told of each file: id, current stem, extension, enclosing folder and
/// index in the whole batch.
pub open spec fn described(chunk: Seq<FileEntry>, offset: int) -> Seq<
    (Seq<char>, Seq<char>, Seq<char>, Seq<char>, int),
> {
    Seq::new(
        chunk.len(),
        |i: int| (chunk[i].id@, chunk[i].stem@, chunk[i].ext@, chunk[i].parent_dir@, offset + i),
    )
}

pub open spec fn prompt_view(files: Seq<PromptFile>) -> Seq<
    (Seq<char>, Seq<char>, Seq<char>, Seq<char>, int),
> {
    files.map_values(
        |f: PromptFile| (f.id@, f.name@, f.ext@, f.parent_hint@, f.index as int),
    )
}

/// The model is told nothing of a file beyond its id, stem, extension and parent folder:
/// two chunks that agree on those describe the same files (whatever their paths, sizes,
/// times or contents).
pub proof fn lemma_prompt_sees_only_names(a: Seq<FileEntry>, b: Seq<FileEntry>, offset: int)
    requires
        a.len() == b.len(),
        forall|i: int|
            0 <= i < a.len() ==> (#[trigger] a[i]).id@ == b[i].id@ && a[i].stem@ == b[i].stem@
                && a[i].ext@ == b[i].ext@ && a[i].parent_dir@ == b[i].parent_dir@,
    ensures
        described(a, offset) == described(b, offset),
{
    assert(described(a, offset) =~= described(b, offset));
}

/// The files of a chunk as described to the model; `offset` is the batch index of the
/// chunk's first file.
pub fn prompt_files(chunk: &Vec<FileEntry>, offset: usize) -> (r: Vec<PromptFile>)
    requires
        offset + chunk.len() <= usize::MAX,
    ensures
        r.len() == chunk.len(),
        forall|i: int|
            0 <= i < chunk.len() ==> {
                &&& (#[trigger] r[i]).id@ == chunk[i].id@
                &&& r[i].name@ == chunk[i].stem@
                &&& r[i].ext@ == chunk[i].ext@
                &&& r[i].parent_hint@ == chunk[i].parent_dir@
                &&& r[i].index == offset + i
            },
        prompt_view(r@) == described(chunk@, offset as int),
{
    let mut out: Vec<PromptFile> = Vec::new();
    let mut i: usize = 0;
    while i < chunk.len()
        invariant
            i <= chunk.len(),
            offset + chunk.len() <= usize::MAX,
            out.len() == i,
            forall|k: int|
                0 <= k < i ==> {
                    &&& (#[trigger] out[k]).id@ == chunk[k].id@
                    &&& out[k].name@ == chunk[k].stem@
                    &&& out[k].ext@ == chunk[k].ext@
                    &&& out[k].parent_hint@ == chunk[k].parent_dir@
                    &&& out[k].index == offset + k
                },
        decreases chunk.len() - i,
    {
        let e = &chunk[i];
        out.push(
            PromptFile {
                id: e.id.clone(),
                name: e.stem.clone(),
                ext: e.ext.clone(),
                parent_hint: e.parent_dir.clone(),
                index: offset + i,
            },
        );
        i = i + 1;
    }
    assert(prompt_view(out@) =~= described(chunk@, offset as int));
    out
}

/// The user prompt: the instruction, then the chunk's files as JSON.
pub open spec fn user_prompt_spec(prompt: Seq<char>, files_json: Seq<char>) -> Seq<char> {
    "Instruction: "@ + prompt + "\n\nFiles: "@ + files_json
}

pub fn user_prompt(prompt: &str, files_json: &str) -> (r: String)
    ensures
        r@ == user_prompt_spec(prompt@, files_json@),
{
    let mut out = str_to_chars("Instruction: ");
    push_str(&mut out, prompt);
    push_str(&mut out, "\n\nFiles: ");
    push_str(&mut out, files_json);
    string_from_chars(out.as_slice())
}

// ---------------------------------------------------------------------------------------
// Locating the JSON in a reply
// ---------------------------------------------------------------------------------------

/// Which of the lenient parse paths recovered the suggestions.
#[derive(Clone, Copy, Debug, PartialEq, Eq, Structural)]
pub enum ParsePath {
    WrappedObject,
    BareArray,
    SubstringWrapped,
    SubstringArray,
}

pub open spec fn parse_path_name(p: ParsePath) -> Seq<char> {
    match p {
        ParsePath::WrappedObject => "wrapped_object"@,
        ParsePath::BareArray => "bare_array"@,
        ParsePath::SubstringWrapped => "substring_wrapped"@,
        ParsePath::SubstringArray => "substring_array"@,
    }
}

impl ParsePath {
    pub fn as_str(self) -> (r: &'static str)
        ensures
            r@ == parse_path_name(self),
    {
        match self {
            ParsePath::WrappedObject => "wrapped_object",
            ParsePath::BareArray => "bare_array",
            ParsePath::SubstringWrapped => "substring_wrapped",
            ParsePath::SubstringArray => "substring_array",
        }
    }
}

/// Index of the first `{` or `[`.
pub open spec fn first_open(s: Seq<char>) -> Option<int>
    decreases s.len(),
{
    if s.len() == 0 {
        None
    } else if s[0] == '{' || s[0] == '[' {
        Some(0)
    } else {
        match first_open(s.drop_first()) {
            Some(k) => Some(k + 1),
            None => None,
        }
    }
}

/// Index of the last `}` or `]`.
pub open spec fn last_close(s: Seq<char>) -> Option<int>
    decreases s.len(),
{
    if s.len() == 0 {
        None
    } else if s.last() == '}' || s.last() == ']' {
        Some(s.len() - 1)
    } else {
        last_close(s.drop_last())
    }
}

/// The span from the first `{`/`[` to the last `}`/`]`, when the latter comes after the
/// former (it drops ```json fences and prose around the JSON).
pub open spec fn json_span(t: Seq<char>) -> Option<Seq<char>> {
    match (first_open(t), last_close(t)) {
        (Some(a), Some(b)) => if b > a {
            Some(t.subrange(a, b + 1))
        } else {
            None
        },
        _ => None,
    }
}

/// Where a reply's JSON may be: the trimmed reply as a whole, and the bracketed span
/// inside it.
pub struct JsonFraming {
    pub trimmed: String,
    pub span: Option<String>,
}

proof fn lemma_first_open_skip(s: Seq<char>, i: int)
    requires
        0 <= i <= s.len(),
        forall|k: int| 0 <= k < i ==> !(#[trigger] s[k] == '{' || s[k] == '['),
    ensures
        first_open(s) == match first_open(s.skip(i)) {
            Some(k) => Some(k + i),
            None => None::<int>,
        },
    decreases i,
{
    if i > 0 {
        assert(s.drop_first().skip(i - 1) =~= s.skip(i));
        lemma_first_open_skip(s.drop_first(), i - 1);
    } else {
        assert(s.skip(0) =~= s);
    }
}

proof fn lemma_last_close_take(s: Seq<char>, j: int)
    requires
        0 <= j <= s.len(),
        forall|k: int| j <= k < s.len() ==> !(#[trigger] s[k] == '}' || s[k] == ']'),
    ensures
        last_close(s) == last_close(s.take(j)),
    decreases s.len() - j,
{
    if j < s.len() {
        assert(s.drop_last().take(j) =~= s.take(j));
        lemma_last_close_take(s.drop_last(), j);
    } else {
        assert(s.take(j) =~= s);
    }
}

/// Trims a reply and locates the bracketed span in it.
pub fn json_framing(text: &str) -> (r: JsonFraming)
    ensures
        r.trimmed@ == trim_seq(text@),
        opt_string_view(r.span) == json_span(trim_seq(text@)),
{
    let t = trim_str(text);
    let mut a: usize = 0;
    while a < t.len() && !(t[a] == '{' || t[a] == '[')
        invariant
            a <= t.len(),
            forall|k: int| 0 <= k < a ==> !(#[trigger] t@[k] == '{' || t@[k] == '['),
        decreases t.len() - a,
    {
        a = a + 1;
    }
    let mut b: usize = t.len();
    while b > 0 && !(t[b - 1] == '}' || t[b - 1] == ']')
        invariant
            b <= t.len(),
            forall|k: int| b <= k < t.len() ==> !(#[trigger] t@[k] == '}' || t@[k] == ']'),
        decreases b,
    {
        b = b - 1;
    }
    proof {
        lemma_first_open_skip(t@, a as int);
        if a < t.len() {
            assert(t@.skip(a as int)[0] == t@[a as int]);
        } else {
            assert(t@.skip(a as int).len() == 0);
        }
        lemma_last_close_take(t@, b as int);
        if b > 0 {
            assert(t@.take(b as int).last() == t@[b - 1]);
        } else {
            assert(t@.take(0).len() == 0);
        }
    }
    let span = if a < t.len() && b > 0 && b - 1 > a {
        let sub = slice_chars(&t, a, b);
        Some(string_from_chars(sub.as_slice()))
    } else {
        None
    };
    JsonFraming { trimmed: string_from_chars(t.as_slice()), span }
}

/// The outcome of parsing one candidate text as `{"results":[...]}` (`wrapped`) and as a
/// bare array of suggestions (`bare`).
pub struct ParseAttempt {
    pub wrapped: Option<Vec<AiResultItem>>,
    pub bare: Option<Vec<AiResultItem>>,
}

/// The last character boundary of `bytes` at or before byte `max`.
pub open spec fn floor_boundary(bytes: Seq<u8>, max: int) -> int
    decreases max,
{
    if max <= 0 {
        0
    } else if vstd::utf8::is_char_boundary(bytes, max) {
        max
    } else {
        floor_boundary(bytes, max - 1)
    }
}

/// `s` cut to its first `max` bytes (at the last character boundary at or before byte
/// `max`), with a note of its full byte length.
pub open spec fn trunc_spec(s: Seq<char>, max: usize) -> Seq<char> {
    let bytes = vstd::utf8::encode_utf8(s);
    if bytes.len() <= max {
        s
    } else {
        vstd::utf8::decode_utf8(bytes.take(floor_boundary(bytes, max as int)))
            + "… ("@ + crate::text::dec_digits(bytes.len()) + " chars total)"@
    }
}

/// Truncate for a log/error preview, cutting at byte `max` or, when that falls inside a
/// character, at the character boundary before it.
pub fn trunc_log(s: &str, max: usize) -> (r: String)
    ensures
        r@ == trunc_spec(s@, max),
{
    let n = s.as_bytes().len();
    if n <= max {
        let whole = str_to_chars(s);
        return string_from_chars(whole.as_slice());
    }
    let ghost bytes = vstd::utf8::encode_utf8(s@);
    proof {
        vstd::utf8::encode_utf8_valid_utf8(s@);
    }
    let mut b: usize = max;
    while b > 0 && !s.is_char_boundary(b)
        invariant
            b <= max,
            bytes == vstd::utf8::encode_utf8(s@),
            vstd::utf8::valid_utf8(bytes),
            floor_boundary(bytes, b as int) == floor_boundary(bytes, max as int),
        decreases b,
    {
        b = b - 1;
    }
    assert(floor_boundary(bytes, max as int) == b);
    let (head, _) = s.split_at(b);
    proof {
        broadcast use vstd::utf8::encode_utf8_decode_utf8;
        assert(vstd::utf8::encode_utf8(head@) =~= bytes.subrange(0, b as int));
        assert(bytes.subrange(0, b as int) =~= bytes.take(b as int));
        assert(vstd::utf8::decode_utf8(vstd::utf8::encode_utf8(head@)) == head@);
    }
    let mut out = str_to_chars(head);
    push_str(&mut out, "… (");
    let d = crate::text::u64_to_dec(n as u64);
    push_all(&mut out, &d);
    push_str(&mut out, " chars total)");
    string_from_chars(out.as_slice())
}

/// The suggestions recovered from a reply, and the path that recovered them.
pub struct ParsedReply {
    pub items: Vec<AiResultItem>,
    pub path: ParsePath,
}

/// The message when no parse path recovered suggestions.
pub open spec fn unparsable_message(trimmed: Seq<char>) -> Seq<char> {
    "Could not parse model response as JSON: "@ + trunc_spec(trimmed, 500)
}

/// The first successful parse, in the order the lenient parser tries them.
pub open spec fn expected_parse(full: ParseAttempt, span: Option<ParseAttempt>) -> Option<
    (Seq<AiResultItem>, ParsePath),
> {
    if full.wrapped is Some {
        Some((full.wrapped->0@, ParsePath::WrappedObject))
    } else if full.bare is Some {
        Some((full.bare->0@, ParsePath::BareArray))
    } else {
        match span {
            Some(a) => if a.wrapped is Some {
                Some((a.wrapped->0@, ParsePath::SubstringWrapped))
            } else if a.bare is Some {
                Some((a.bare->0@, ParsePath::SubstringArray))
            } else {
                None
            },
            None => None,
        }
    }
}

/// Lenient choice among parse outcomes: `{"results":[...]}` of the whole trimmed reply, then
/// a bare array of it, then the same two for the bracketed span; otherwise an error quoting
/// the start of the reply.
pub fn choose_parse(full: ParseAttempt, span: Option<ParseAttempt>, trimmed: &str) -> (r: Result<
    ParsedReply,
    String,
>)
    ensures
        match expected_parse(full, span) {
            Some((v, path)) => (r matches Ok(x) && x.path == path && x.items@ == v),
            None => (r matches Err(e) && e@ == unparsable_message(trimmed@)),
        },
{
    if let Some(v) = full.wrapped {
        return Ok(ParsedReply { items: v, path: ParsePath::WrappedObject });
    }
    if let Some(v) = full.bare {
        return Ok(ParsedReply { items: v, path: ParsePath::BareArray });
    }
    if let Some(a) = span {
        if let Some(v) = a.wrapped {
            return Ok(ParsedReply { items: v, path: ParsePath::SubstringWrapped });
        }
        if let Some(v) = a.bare {
            return Ok(ParsedReply { items: v, path: ParsePath::SubstringArray });
        }
    }
    let preview = trunc_log(trimmed, 500);
    let mut msg = str_to_chars("Could not parse model response as JSON: ");
    push_str(&mut msg, preview.as_str());
    Err(string_from_chars(msg.as_slice()))
}

} // verus!
