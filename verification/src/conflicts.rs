//! Validation and collision detection over computed preview rows.
//!
//! Defaults are cross-platform-safe: characters illegal on Windows are flagged even on
//! Linux, and collisions are detected case-insensitively (so a batch is safe to apply on a
//! case-insensitive filesystem too).

use vstd::prelude::*;

use crate::engine::opt_string_view;
use crate::paths::{join_path, path_join};
use crate::text::{
    chars_eq, lower_chars, push_str, str_lower, str_to_chars, string_from_chars, trim_str,
    trim_seq,
};
use crate::types::{FileEntry, PreviewRow, RowStatus};

verus! {

/// Characters that are invalid in a filename on at least one major OS.
pub open spec fn is_invalid_char(c: char) -> bool {
    c == '<' || c == '>' || c == ':' || c == '"' || c == '/' || c == '\\' || c == '|' || c == '?'
        || c == '*'
}

/// Control characters (below U+0020).
pub open spec fn is_control(c: char) -> bool {
    ' ' > c
}

/// The first invalid or control character of `s`.
pub open spec fn first_bad_char(s: Seq<char>) -> Option<char>
    decreases s.len(),
{
    if s.len() == 0 {
        None
    } else if is_invalid_char(s[0]) || is_control(s[0]) {
        Some(s[0])
    } else {
        first_bad_char(s.drop_first())
    }
}

/// Why `name` cannot be used as a filename, or `None` when it can: it must not be blank,
/// must hold no invalid or control character, and must not end with a space or a dot.
pub open spec fn validate_name_spec(name: Seq<char>) -> Option<Seq<char>> {
    if trim_seq(name).len() == 0 {
        Some("Name is empty"@)
    } else {
        match first_bad_char(name) {
            Some(c) => if is_control(c) {
                Some("Name contains a control character"@)
            } else {
                Some("Name contains an invalid character: "@ + seq![c])
            },
            None => if name.len() > 0 && (name.last() == ' ' || name.last() == '.') {
                Some("Name ends with a space or dot"@)
            } else {
                None
            },
        }
    }
}

fn is_invalid_char_exec(c: char) -> (r: bool)
    ensures
        r == is_invalid_char(c),
{
    c == '<' || c == '>' || c == ':' || c == '"' || c == '/' || c == '\\' || c == '|' || c == '?'
        || c == '*'
}

pub fn validate_name(name: &str) -> (r: Option<String>)
    ensures
        opt_string_view(r) == validate_name_spec(name@),
{
    let trimmed = trim_str(name);
    if trimmed.len() == 0 {
        return Some(string_from_chars(str_to_chars("Name is empty").as_slice()));
    }
    let chars = str_to_chars(name);
    let mut i: usize = 0;
    assert(chars@.skip(0) =~= chars@);
    while i < chars.len()
        invariant
            i <= chars.len(),
            chars@ == name@,
            trim_seq(name@).len() != 0,
            first_bad_char(chars@) == first_bad_char(chars@.skip(i as int)),
        decreases chars.len() - i,
    {
        let c = chars[i];
        let ghost rest = chars@.skip(i as int);
        assert(rest[0] == c);
        assert(rest.drop_first() =~= chars@.skip(i + 1));
        if is_invalid_char_exec(c) || ' ' > c {
            assert(first_bad_char(rest) == Some(c));
            assert(trim_seq(name@).len() != 0);
            if ' ' > c {
                return Some(
                    string_from_chars(str_to_chars("Name contains a control character").as_slice()),
                );
            }
            let mut msg = str_to_chars("Name contains an invalid character: ");
            msg.push(c);
            assert(msg@ =~= "Name contains an invalid character: "@ + seq![c]);
            return Some(string_from_chars(msg.as_slice()));
        }
        i = i + 1;
    }
    assert(chars@.skip(i as int) =~= Seq::<char>::empty());
    let n = chars.len();
    if n > 0 && (chars[n - 1] == ' ' || chars[n - 1] == '.') {
        return Some(string_from_chars(str_to_chars("Name ends with a space or dot").as_slice()));
    }
    None
}

/// The parent directory recorded for `id`: that of the last entry with this id (a map
/// built from the entries keeps the last), or empty when no entry has it.
pub open spec fn parent_of(entries: Seq<FileEntry>, id: Seq<char>) -> Seq<char>
    decreases entries.len(),
{
    if entries.len() == 0 {
        seq![]
    } else if entries.last().id@ == id {
        entries.last().parent_dir@
    } else {
        parent_of(entries.drop_last(), id)
    }
}

/// The parent directory recorded for the file with this id.
pub fn parent_dir_of(entries: &Vec<FileEntry>, id: &String) -> (r: String)
    ensures
        r@ == parent_of(entries@, id@),
{
    let mut j: usize = entries.len();
    assert(entries@.take(j as int) =~= entries@);
    while j > 0
        invariant
            j <= entries.len(),
            parent_of(entries@, id@) == parent_of(entries@.take(j as int), id@),
        decreases j,
    {
        let ghost t = entries@.take(j as int);
        assert(t.drop_last() =~= entries@.take(j - 1));
        assert(t.last() == entries@[j - 1]);
        if entries[j - 1].id == *id {
            return entries[j - 1].parent_dir.clone();
        }
        j = j - 1;
    }
    String::new()
}

/// The path a row would be renamed to: its file's parent directory (empty when no entry
/// has its id) joined with its new name.
pub open spec fn row_target(
    entries: Seq<FileEntry>,
    r: (Seq<char>, Seq<char>, RowStatus, Option<Seq<char>>),
) -> Seq<char> {
    path_join(parent_of(entries, r.0), r.1)
}

/// The paths the rows would be renamed to, in row order; the application reports whether
/// something exists at each.
pub fn row_targets(entries: &Vec<FileEntry>, rows: &Vec<PreviewRow>) -> (r: Vec<String>)
    ensures
        r.len() == rows.len(),
        forall|i: int|
            0 <= i < rows.len() ==> (#[trigger] r@[i])@ == row_target(entries@, row_view(rows@[i])),
{
    let mut out: Vec<String> = Vec::new();
    let mut i: usize = 0;
    while i < rows.len()
        invariant
            i <= rows.len(),
            out.len() == i,
            forall|k: int|
                0 <= k < i ==> (#[trigger] out@[k])@ == row_target(entries@, row_view(rows@[k])),
        decreases rows.len() - i,
    {
        let dir = parent_dir_of(entries, &rows[i].id);
        out.push(join_path(dir.as_str(), rows[i].new_name.as_str()));
        i = i + 1;
    }
    out
}

/// What annotation reads of a row: id, new name, status and message.
pub open spec fn row_view(r: PreviewRow) -> (Seq<char>, Seq<char>, RowStatus, Option<Seq<char>>) {
    (r.id@, r.new_name@, r.status, opt_string_view(r.message))
}

/// The views of a list of rows.
pub open spec fn rows_view(rows: Seq<PreviewRow>) -> Seq<
    (Seq<char>, Seq<char>, RowStatus, Option<Seq<char>>),
> {
    rows.map_values(|r: PreviewRow| row_view(r))
}

/// The status a row has after validation (pass A).
pub open spec fn status_after_validation(r: (Seq<char>, Seq<char>, RowStatus, Option<Seq<char>>)) -> RowStatus {
    if r.2 == RowStatus::Changed && validate_name_spec(r.1) is Some {
        RowStatus::Invalid
    } else {
        r.2
    }
}

/// The key two rows collide on: lowercased parent directory and lowercased new name.
pub open spec fn row_key(
    entries: Seq<FileEntry>,
    r: (Seq<char>, Seq<char>, RowStatus, Option<Seq<char>>),
) -> (Seq<char>, Seq<char>) {
    (str_lower(parent_of(entries, r.0)), str_lower(r.1))
}

/// Row `i` shares its key with another row that is not invalid.
pub open spec fn collides(
    entries: Seq<FileEntry>,
    rows: Seq<(Seq<char>, Seq<char>, RowStatus, Option<Seq<char>>)>,
    i: int,
) -> bool {
    exists|j: int|
        0 <= j < rows.len() && j != i && status_after_validation(#[trigger] rows[j])
            != RowStatus::Invalid && row_key(entries, rows[j]) == row_key(entries, rows[i])
}

/// Something exists at the destination and it is not (case-insensitively) the original
/// path of a file in this batch, which is moving away.
pub open spec fn clashes_on_disk(entries: Seq<FileEntry>, target: Seq<char>, exists: bool) -> bool {
    exists && !exists|k: int|
        0 <= k < entries.len() && str_lower(#[trigger] entries[k].path@) == str_lower(target)
}

/// The (status, message) of row `i` after annotation. Only changed rows are touched: an
/// invalid new name makes them `Invalid`; otherwise a collision with another non-invalid
/// row makes them `Conflict`; otherwise a pre-existing file at the destination does.
pub open spec fn annotated(
    entries: Seq<FileEntry>,
    rows: Seq<(Seq<char>, Seq<char>, RowStatus, Option<Seq<char>>)>,
    exists: Seq<bool>,
    i: int,
) -> (RowStatus, Option<Seq<char>>) {
    let r = rows[i];
    if r.2 != RowStatus::Changed {
        (r.2, r.3)
    } else {
        match validate_name_spec(r.1) {
            Some(m) => (RowStatus::Invalid, Some(m)),
            None => if collides(entries, rows, i) {
                (RowStatus::Conflict, Some("Name collides with another file in the batch"@))
            } else if clashes_on_disk(entries, row_target(entries, r), exists[i]) {
                (RowStatus::Conflict, Some("A file with this name already exists"@))
            } else {
                (r.2, r.3)
            },
        }
    }
}

/// Rows still marked changed after annotation are safe to apply: each new name is a valid
/// filename, no two of them share a (directory, name) key, and none lands on an existing
/// file outside the batch.
pub proof fn lemma_changed_rows_are_safe(
    entries: Seq<FileEntry>,
    rows: Seq<(Seq<char>, Seq<char>, RowStatus, Option<Seq<char>>)>,
    exists: Seq<bool>,
)
    requires
        exists.len() == rows.len(),
    ensures
        forall|i: int|
            0 <= i < rows.len() && (#[trigger] annotated(entries, rows, exists, i)).0
                == RowStatus::Changed ==> validate_name_spec(rows[i].1) is None && !clashes_on_disk(
                entries,
                row_target(entries, rows[i]),
                exists[i],
            ),
        forall|i: int, j: int|
            0 <= i < rows.len() && 0 <= j < rows.len() && i != j && (#[trigger] annotated(
                entries,
                rows,
                exists,
                i,
            )).0 == RowStatus::Changed && (#[trigger] annotated(entries, rows, exists, j)).0
                == RowStatus::Changed ==> row_key(entries, rows[i]) != row_key(entries, rows[j]),
{
    assert forall|i: int, j: int|
        0 <= i < rows.len() && 0 <= j < rows.len() && i != j && (#[trigger] annotated(
            entries,
            rows,
            exists,
            i,
        )).0 == RowStatus::Changed && (#[trigger] annotated(entries, rows, exists, j)).0
            == RowStatus::Changed implies row_key(entries, rows[i]) != row_key(entries, rows[j]) by {
        assert(rows[j].2 == RowStatus::Changed);
        assert(validate_name_spec(rows[j].1) is None);
        assert(status_after_validation(rows[j]) == RowStatus::Changed);
        assert(!collides(entries, rows, i));
    }
}

/// A changed row with a valid new name is marked as colliding within the batch exactly when
/// another row that is not invalid has, case-insensitively, both the same parent directory
/// and the same new name; rows in different directories never make each other collide.
pub proof fn lemma_batch_collision_means_same_folder(
    entries: Seq<FileEntry>,
    rows: Seq<(Seq<char>, Seq<char>, RowStatus, Option<Seq<char>>)>,
    exists: Seq<bool>,
    i: int,
)
    requires
        exists.len() == rows.len(),
        0 <= i < rows.len(),
        rows[i].2 == RowStatus::Changed,
        validate_name_spec(rows[i].1) is None,
    ensures
        annotated(entries, rows, exists, i) == (
            RowStatus::Conflict,
            Some("Name collides with another file in the batch"@),
        ) <==> exists|j: int|
            0 <= j < rows.len() && j != i && status_after_validation(#[trigger] rows[j])
                != RowStatus::Invalid && str_lower(parent_of(entries, rows[j].0)) == str_lower(
                parent_of(entries, rows[i].0),
            ) && str_lower(rows[j].1) == str_lower(rows[i].1),
{
    reveal_strlit("Name collides with another file in the batch");
    reveal_strlit("A file with this name already exists");
    let m1 = "Name collides with another file in the batch"@;
    let m2 = "A file with this name already exists"@;
    assert(m1.len() != m2.len());
}

fn status_after_validation_exec(r: &PreviewRow) -> (s: RowStatus)
    ensures
        s == status_after_validation(row_view(*r)),
{
    if r.status == RowStatus::Changed {
        match validate_name(r.new_name.as_str()) {
            Some(_) => RowStatus::Invalid,
            None => r.status,
        }
    } else {
        r.status
    }
}

/// Annotate rows in place with `Invalid` / `Conflict` status and messages. `exists[i]`
/// says whether something exists at `row_target` of `rows[i]` (see `row_targets`).
pub fn annotate(entries: &Vec<FileEntry>, rows: &mut Vec<PreviewRow>, exists: &Vec<bool>)
    requires
        old(rows).len() == exists.len(),
    ensures
        final(rows).len() == old(rows).len(),
        forall|i: int|
            0 <= i < old(rows).len() ==> {
                &&& (#[trigger] final(rows)[i]).id == old(rows)[i].id
                &&& final(rows)[i].original == old(rows)[i].original
                &&& final(rows)[i].new_name == old(rows)[i].new_name
                &&& (final(rows)[i].status, opt_string_view(final(rows)[i].message)) == annotated(
                    entries@,
                    rows_view(old(rows)@),
                    exists@,
                    i,
                )
            },
{
    let ghost orig = rows@;
    let ghost ov = rows_view(orig);
    let n = rows.len();
    // Keys and validation status of every row, computed once.
    let mut dir_keys: Vec<Vec<char>> = Vec::new();
    let mut name_keys: Vec<Vec<char>> = Vec::new();
    let mut statuses: Vec<RowStatus> = Vec::new();
    let mut i: usize = 0;
    while i < n
        invariant
            n == rows.len(),
            rows@ == orig,
            ov == rows_view(orig),
            i <= n,
            dir_keys.len() == i,
            name_keys.len() == i,
            statuses.len() == i,
            forall|k: int| 0 <= k < i ==> (#[trigger] dir_keys[k])@ == row_key(entries@, ov[k]).0,
            forall|k: int| 0 <= k < i ==> (#[trigger] name_keys[k])@ == row_key(entries@, ov[k]).1,
            forall|k: int| 0 <= k < i ==> #[trigger] statuses[k] == status_after_validation(ov[k]),
        decreases n - i,
    {
        let dir = parent_dir_of(entries, &rows[i].id);
        let dv = str_to_chars(dir.as_str());
        dir_keys.push(lower_chars(&dv));
        let nv = str_to_chars(rows[i].new_name.as_str());
        name_keys.push(lower_chars(&nv));
        statuses.push(status_after_validation_exec(&rows[i]));
        i = i + 1;
    }
    // Lowercased original paths of the batch.
    let mut batch_orig: Vec<Vec<char>> = Vec::new();
    let mut k: usize = 0;
    while k < entries.len()
        invariant
            k <= entries.len(),
            batch_orig.len() == k,
            forall|t: int| 0 <= t < k ==> (#[trigger] batch_orig[t])@ == str_lower(entries@[t].path@),
        decreases entries.len() - k,
    {
        let pv = str_to_chars(entries[k].path.as_str());
        batch_orig.push(lower_chars(&pv));
        k = k + 1;
    }
    let mut i: usize = 0;
    while i < n
        invariant
            n == rows.len(),
            n == orig.len(),
            n == exists.len(),
            ov == rows_view(orig),
            i <= n,
            dir_keys.len() == n,
            name_keys.len() == n,
            statuses.len() == n,
            forall|k: int| 0 <= k < n ==> (#[trigger] dir_keys[k])@ == row_key(entries@, ov[k]).0,
            forall|k: int| 0 <= k < n ==> (#[trigger] name_keys[k])@ == row_key(entries@, ov[k]).1,
            forall|k: int| 0 <= k < n ==> #[trigger] statuses[k] == status_after_validation(ov[k]),
            batch_orig.len() == entries.len(),
            forall|t: int|
                0 <= t < entries.len() ==> (#[trigger] batch_orig[t])@ == str_lower(entries@[t].path@),
            forall|k: int|
                0 <= k < n ==> {
                    &&& (#[trigger] rows[k]).id == orig[k].id
                    &&& rows[k].original == orig[k].original
                    &&& rows[k].new_name == orig[k].new_name
                },
            forall|k: int|
                0 <= k < i ==> ((#[trigger] rows[k]).status, opt_string_view(rows[k].message))
                    == annotated(entries@, ov, exists@, k),
            forall|k: int| i <= k < n ==> #[trigger] rows[k] == orig[k],
        decreases n - i,
    {
        if rows[i].status == RowStatus::Changed {
            let update: Option<(RowStatus, String)>;
            match validate_name(rows[i].new_name.as_str()) {
                Some(m) => {
                    update = Some((RowStatus::Invalid, m));
                },
                None => {
                    // Pass B: another non-invalid row with the same key.
                    let mut j: usize = 0;
                    let mut hit = false;
                    while j < n && !hit
                        invariant
                            j <= n,
                            n == orig.len(),
                            ov == rows_view(orig),
                            dir_keys.len() == n,
                            name_keys.len() == n,
                            statuses.len() == n,
                            i < n,
                            forall|k: int|
                                0 <= k < n ==> (#[trigger] dir_keys[k])@ == row_key(entries@, ov[k]).0,
                            forall|k: int|
                                0 <= k < n ==> (#[trigger] name_keys[k])@ == row_key(entries@, ov[k]).1,
                            forall|k: int|
                                0 <= k < n ==> #[trigger] statuses[k] == status_after_validation(ov[k]),
                            hit ==> collides(entries@, ov, i as int),
                            !hit ==> forall|t: int|
                                0 <= t < j ==> !(t != i && status_after_validation(#[trigger] ov[t])
                                    != RowStatus::Invalid && row_key(entries@, ov[t]) == row_key(
                                    entries@,
                                    ov[i as int],
                                )),
                        decreases n - j + if hit { 0int } else { 1int },
                    {
                        if j != i && statuses[j] != RowStatus::Invalid && chars_eq(
                            &dir_keys[j],
                            &dir_keys[i],
                        ) && chars_eq(&name_keys[j], &name_keys[i]) {
                            hit = true;
                            assert(status_after_validation(ov[j as int]) != RowStatus::Invalid);
                        } else {
                            j = j + 1;
                        }
                    }
                    if hit {
                        update = Some(
                            (
                                RowStatus::Conflict,
                                string_from_chars(
                                    str_to_chars(
                                        "Name collides with another file in the batch",
                                    ).as_slice(),
                                ),
                            ),
                        );
                    } else {
                        // Pass C: a pre-existing file outside this batch.
                        let mut clash = false;
                        if exists[i] {
                            let dir = parent_dir_of(entries, &rows[i].id);
                            let target = join_path(dir.as_str(), rows[i].new_name.as_str());
                            assert(target@ == row_target(entries@, ov[i as int]));
                            let tv = str_to_chars(target.as_str());
                            let tl = lower_chars(&tv);
                            let mut t: usize = 0;
                            let mut found = false;
                            while t < entries.len() && !found
                                invariant
                                    t <= entries.len(),
                                    batch_orig.len() == entries.len(),
                                    forall|u: int|
                                        0 <= u < entries.len() ==> (#[trigger] batch_orig[u])@
                                            == str_lower(entries@[u].path@),
                                    found ==> exists|u: int|
                                        0 <= u < entries.len() && str_lower(
                                            #[trigger] entries@[u].path@,
                                        ) == tl@,
                                    !found ==> forall|u: int|
                                        0 <= u < t ==> str_lower(#[trigger] entries@[u].path@)
                                            != tl@,
                                decreases entries.len() - t + if found { 0int } else { 1int },
                            {
                                if chars_eq(&batch_orig[t], &tl) {
                                    found = true;
                                    assert(str_lower(entries@[t as int].path@) == tl@);
                                } else {
                                    t = t + 1;
                                }
                            }
                            clash = !found;
                        }
                        assert(clash == clashes_on_disk(entries@, row_target(entries@, ov[i as int]), exists@[i as int]));
                        if clash {
                            update = Some(
                                (
                                    RowStatus::Conflict,
                                    string_from_chars(
                                        str_to_chars("A file with this name already exists").as_slice(),
                                    ),
                                ),
                            );
                        } else {
                            update = None;
                        }
                    }
                },
            }
            match update {
                Some((st, msg)) => {
                    let ghost before = rows@;
                    let mut row = rows.remove(i);
                    row.status = st;
                    row.message = Some(msg);
                    rows.insert(i, row);
                    assert forall|k: int| 0 <= k < n && k != i implies #[trigger] rows[k]
                        == before[k] by {}
                },
                None => {},
            }
        }
        i = i + 1;
    }
}

} // verus!
