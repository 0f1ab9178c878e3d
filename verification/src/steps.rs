//! Pure string transforms, one per pipeline step. All operate on `char` boundaries, so
//! they are Unicode-safe, and each one states its result exactly over `Seq<char>`.

use vstd::prelude::*;

use crate::text::{
    char_is_alphabetic, char_is_alphanumeric, char_is_lowercase, char_is_uppercase,
    char_is_whitespace, char_lower, char_to_lower, char_to_upper, char_upper, dec_digits, is_alphabetic_char,
    is_alphanumeric_char, is_digit, is_lowercase_char, is_uppercase_char, is_ws, lower_chars, push_all,
    push_str, slice_chars, str_lower, str_to_chars, str_upper, string_from_chars, trim_chars, trim_seq,
    u64_to_dec, upper_chars,
};
use crate::pattern::{regex_replace_all, CompiledRegex};
use crate::types::{AffixPosition, CaseMode, InsertPosition, RemoveFrom};

verus! {

// ---------------------------------------------------------------------------------------
// Find & replace
// ---------------------------------------------------------------------------------------

/// Left-to-right replacement scan. `key` is compared against `needle` in place of `hay`
/// (for a case-insensitive search it is the lowercased `hay`, char for char); at each
/// position where `key` continues with `needle`, `rep` is emitted and the match is
/// skipped — at every such position when `all`, only at the first when not. Elsewhere the
/// character of `hay` is kept.
pub open spec fn scan_replace(
    hay: Seq<char>,
    key: Seq<char>,
    needle: Seq<char>,
    rep: Seq<char>,
    all: bool,
    replaced: bool,
) -> Seq<char>
    decreases hay.len(),
{
    if hay.len() == 0 {
        hay
    } else if needle.len() > 0 && needle.len() <= hay.len() && needle.len() <= key.len()
        && key.take(needle.len() as int) == needle && (all || !replaced) {
        rep + scan_replace(
            hay.skip(needle.len() as int),
            key.skip(needle.len() as int),
            needle,
            rep,
            all,
            true,
        )
    } else {
        seq![hay[0]] + scan_replace(hay.drop_first(), key.drop_first(), needle, rep, all, replaced)
    }
}

proof fn lemma_scan_after_replacement(hay: Seq<char>, key: Seq<char>, needle: Seq<char>, rep: Seq<char>)
    ensures
        scan_replace(hay, key, needle, rep, false, true) == hay,
    decreases hay.len(),
{
    if hay.len() > 0 {
        lemma_scan_after_replacement(hay.drop_first(), key.drop_first(), needle, rep);
        assert(seq![hay[0]] + hay.drop_first() =~= hay);
    }
}

/// `needle` occurs in `key` at position `j`.
pub open spec fn occurs_at(key: Seq<char>, needle: Seq<char>, j: int) -> bool {
    0 <= j && j + needle.len() <= key.len() && key.subrange(j, j + needle.len()) == needle
}

/// `i` is the first position where `needle` occurs in `key`.
pub open spec fn first_occurrence(key: Seq<char>, needle: Seq<char>, i: int) -> bool {
    occurs_at(key, needle, i) && forall|j: int| 0 <= j < i ==> !#[trigger] occurs_at(key, needle, j)
}

proof fn lemma_occurs_shift(key: Seq<char>, needle: Seq<char>, j: int)
    requires
        key.len() > 0,
        j >= 0,
    ensures
        occurs_at(key.drop_first(), needle, j) <==> occurs_at(key, needle, j + 1),
{
    let n = needle.len() as int;
    if 0 <= j && j + n <= key.len() - 1 {
        assert(key.drop_first().subrange(j, j + n) =~= key.subrange(j + 1, j + 1 + n));
    }
}

proof fn lemma_scan_none(hay: Seq<char>, key: Seq<char>, needle: Seq<char>, rep: Seq<char>)
    requires
        key.len() == hay.len(),
        needle.len() > 0,
        forall|j: int| !#[trigger] occurs_at(key, needle, j),
    ensures
        scan_replace(hay, key, needle, rep, false, false) == hay,
    decreases hay.len(),
{
    let n = needle.len() as int;
    if hay.len() > 0 {
        assert(!occurs_at(key, needle, 0));
        if n <= hay.len() && key.take(n) == needle {
            assert(key.subrange(0, n) =~= key.take(n));
        }
        assert forall|j: int| !#[trigger] occurs_at(key.drop_first(), needle, j) by {
            if j >= 0 {
                lemma_occurs_shift(key, needle, j);
                assert(!occurs_at(key, needle, j + 1));
            }
        }
        lemma_scan_none(hay.drop_first(), key.drop_first(), needle, rep);
        assert(seq![hay[0]] + hay.drop_first() =~= hay);
    }
}

proof fn lemma_scan_first_at(hay: Seq<char>, key: Seq<char>, needle: Seq<char>, rep: Seq<char>, i: int)
    requires
        key.len() == hay.len(),
        needle.len() > 0,
        first_occurrence(key, needle, i),
    ensures
        scan_replace(hay, key, needle, rep, false, false) == hay.take(i) + rep + hay.skip(
            i + needle.len(),
        ),
    decreases i,
{
    let n = needle.len() as int;
    if i == 0 {
        assert(key.subrange(0, n) =~= key.take(n));
        lemma_scan_after_replacement(hay.skip(n), key.skip(n), needle, rep);
        assert(hay.take(0) + rep + hay.skip(n) =~= rep + hay.skip(n));
    } else {
        assert(!occurs_at(key, needle, 0));
        if n <= hay.len() && key.take(n) == needle {
            assert(key.subrange(0, n) =~= key.take(n));
        }
        let h1 = hay.drop_first();
        let k1 = key.drop_first();
        lemma_occurs_shift(key, needle, i - 1);
        assert forall|j: int| 0 <= j < i - 1 implies !#[trigger] occurs_at(k1, needle, j) by {
            lemma_occurs_shift(key, needle, j);
            assert(!occurs_at(key, needle, j + 1));
        }
        lemma_scan_first_at(h1, k1, needle, rep, i - 1);
        assert(seq![hay[0]] + (h1.take(i - 1) + rep + h1.skip(i - 1 + n)) =~= hay.take(i) + rep
            + hay.skip(i + n));
    }
}

/// The text a search looks at: as it is, or lowercased when the search ignores case.
pub open spec fn searched(s: Seq<char>, case_sensitive: bool) -> Seq<char> {
    if case_sensitive {
        s
    } else {
        str_lower(s)
    }
}

/// Find & replace of the first occurrence only makes at most one replacement, case-sensitive
/// or not: where the searched text (the name, lowercased when the search ignores case) holds
/// `find` (lowercased likewise), the result is the name up to the first occurrence, then
/// `replace`, then the rest of the name verbatim; where it does not, the name is unchanged.
pub proof fn lemma_find_replace_first_only(
    s: Seq<char>,
    find: Seq<char>,
    rep: Seq<char>,
    case_sensitive: bool,
)
    requires
        find.len() > 0,
        case_sensitive || (str_lower(s).len() == s.len() && str_lower(find).len() == find.len()),
    ensures
        (forall|j: int| !#[trigger] occurs_at(searched(s, case_sensitive), searched(find, case_sensitive), j))
            ==> find_replace_spec(s, find, rep, case_sensitive, false) == s,
        forall|i: int|
            #[trigger] occurs_at(searched(s, case_sensitive), searched(find, case_sensitive), i)
                && (forall|j: int|
                0 <= j < i ==> !#[trigger] occurs_at(
                    searched(s, case_sensitive),
                    searched(find, case_sensitive),
                    j,
                )) ==> find_replace_spec(s, find, rep, case_sensitive, false) == s.take(i) + rep
                + s.skip(i + find.len()),
{
    let key = searched(s, case_sensitive);
    let needle = searched(find, case_sensitive);
    assert forall|i: int|
        #[trigger] occurs_at(key, needle, i) && (forall|j: int|
            0 <= j < i ==> !#[trigger] occurs_at(key, needle, j)) implies find_replace_spec(
        s,
        find,
        rep,
        case_sensitive,
        false,
    ) == s.take(i) + rep + s.skip(i + find.len()) by {
        assert(first_occurrence(key, needle, i));
        lemma_scan_first_at(s, key, needle, rep, i);
    }
    if forall|j: int| !#[trigger] occurs_at(key, needle, j) {
        lemma_scan_none(s, key, needle, rep);
    }
}

/// Literal find & replace. An empty `find` leaves `s` unchanged. Case-sensitive search is
/// `str::replace` (every non-overlapping occurrence, leftmost first) or `str::replacen(.., 1)`
/// (first occurrence only). Case-insensitive search compares the lowercased string with the
/// lowercased `find`, and leaves `s` unchanged when lowercasing changes either length.
pub open spec fn find_replace_spec(
    s: Seq<char>,
    find: Seq<char>,
    rep: Seq<char>,
    case_sensitive: bool,
    all: bool,
) -> Seq<char> {
    if find.len() == 0 {
        s
    } else if case_sensitive {
        scan_replace(s, s, find, rep, all, false)
    } else if str_lower(s).len() != s.len() || str_lower(find).len() != find.len() {
        s
    } else {
        scan_replace(s, str_lower(s), str_lower(find), rep, all, false)
    }
}

/// Whether `key[i..]` starts with `needle`.
fn starts_at(key: &Vec<char>, i: usize, needle: &Vec<char>) -> (r: bool)
    requires
        i <= key.len(),
    ensures
        r == (needle.len() <= key.len() - i && key@.skip(i as int).take(needle.len() as int)
            == needle@),
{
    if needle.len() > key.len() - i {
        return false;
    }
    let mut k: usize = 0;
    while k < needle.len()
        invariant
            needle.len() <= key.len() - i,
            k <= needle.len(),
            forall|t: int| 0 <= t < k ==> key@[i + t] == needle@[t],
        decreases needle.len() - k,
    {
        if key[i + k] != needle[k] {
            assert(key@.skip(i as int).take(needle.len() as int)[k as int] != needle@[k as int]);
            return false;
        }
        k = k + 1;
    }
    assert(key@.skip(i as int).take(needle.len() as int) =~= needle@);
    true
}

/// The replacement scan of `scan_replace`, with `key.len() == hay.len()`.
fn scan_replace_exec(
    hay: &Vec<char>,
    key: &Vec<char>,
    needle: &Vec<char>,
    rep: &Vec<char>,
    all: bool,
) -> (r: Vec<char>)
    requires
        key.len() == hay.len(),
    ensures
        r@ == scan_replace(hay@, key@, needle@, rep@, all, false),
{
    let mut out: Vec<char> = Vec::new();
    let mut i: usize = 0;
    let mut replaced = false;
    assert(hay@.skip(0) =~= hay@);
    assert(key@.skip(0) =~= key@);
    while i < hay.len()
        invariant
            key.len() == hay.len(),
            i <= hay.len(),
            out@ + scan_replace(
                hay@.skip(i as int),
                key@.skip(i as int),
                needle@,
                rep@,
                all,
                replaced,
            ) == scan_replace(hay@, key@, needle@, rep@, all, false),
        decreases hay.len() - i,
    {
        let ghost h = hay@.skip(i as int);
        let ghost k = key@.skip(i as int);
        let m = needle.len() > 0 && starts_at(key, i, needle);
        if m && (all || !replaced) {
            proof {
                assert(h.skip(needle.len() as int) =~= hay@.skip(i + needle.len()));
                assert(k.skip(needle.len() as int) =~= key@.skip(i + needle.len()));
            }
            let ghost before = out@;
            push_all(&mut out, rep);
            i = i + needle.len();
            replaced = true;
            assert(before + rep@ + scan_replace(
                hay@.skip(i as int),
                key@.skip(i as int),
                needle@,
                rep@,
                all,
                replaced,
            ) == before + (rep@ + scan_replace(
                hay@.skip(i as int),
                key@.skip(i as int),
                needle@,
                rep@,
                all,
                replaced,
            )));
        } else {
            proof {
                assert(h.drop_first() =~= hay@.skip(i + 1));
                assert(k.drop_first() =~= key@.skip(i + 1));
                assert(h[0] == hay@[i as int]);
            }
            let ghost before = out@;
            out.push(hay[i]);
            i = i + 1;
            assert(before.push(hay@[i - 1]) + scan_replace(
                hay@.skip(i as int),
                key@.skip(i as int),
                needle@,
                rep@,
                all,
                replaced,
            ) =~= before + (seq![hay@[i - 1]] + scan_replace(
                hay@.skip(i as int),
                key@.skip(i as int),
                needle@,
                rep@,
                all,
                replaced,
            )));
        }
    }
    assert(hay@.skip(i as int).len() == 0);
    assert(out@ + hay@.skip(i as int) =~= out@);
    out
}

/// Literal find & replace, optionally case-insensitive and/or first occurrence only.
pub fn find_replace(
    s: &str,
    find: &str,
    replace: &str,
    case_sensitive: bool,
    all_occurrences: bool,
) -> (r: String)
    ensures
        r@ == find_replace_spec(s@, find@, replace@, case_sensitive, all_occurrences),
{
    let hay = str_to_chars(s);
    let needle = str_to_chars(find);
    let rep = str_to_chars(replace);
    if needle.len() == 0 {
        return string_from_chars(hay.as_slice());
    }
    if case_sensitive {
        let out = scan_replace_exec(&hay, &hay, &needle, &rep, all_occurrences);
        string_from_chars(out.as_slice())
    } else {
        replace_ci(&hay, &needle, &rep, all_occurrences)
    }
}

/// Case-insensitive literal replace, scanning the lowercased string char by char.
fn replace_ci(hay: &Vec<char>, needle: &Vec<char>, rep: &Vec<char>, all: bool) -> (r: String)
    requires
        needle.len() > 0,
    ensures
        r@ == find_replace_spec(hay@, needle@, rep@, false, all),
{
    let hay_lower = lower_chars(hay);
    let needle_lower = lower_chars(needle);
    // Lowercasing can change length for some scripts; fall back to the input then.
    if hay_lower.len() != hay.len() || needle_lower.len() != needle.len() {
        return string_from_chars(hay.as_slice());
    }
    let out = scan_replace_exec(hay, &hay_lower, &needle_lower, rep, all);
    string_from_chars(out.as_slice())
}


// ---------------------------------------------------------------------------------------
// Regex
// ---------------------------------------------------------------------------------------

/// Regex replace-all with `$1` / `${name}` capture substitution.
pub fn regex_replace(s: &str, re: &CompiledRegex, replacement: &str) -> (r: String)
    ensures
        r@ == regex_replace_all(
            re.spec_pattern(),
            re.spec_ignore_case(),
            re.spec_dotall(),
            re.spec_multiline(),
            s@,
            replacement@,
        ),
{
    re.replace_all(s, replacement)
}

// ---------------------------------------------------------------------------------------
// Change case
// ---------------------------------------------------------------------------------------

/// Title case: each alphanumeric character that follows a non-alphanumeric one (or starts
/// the name) is uppercased, every other alphanumeric character lowercased; separators are
/// kept as they are.
pub open spec fn title_go(s: Seq<char>, at_boundary: bool) -> Seq<char>
    decreases s.len(),
{
    if s.len() == 0 {
        seq![]
    } else if is_alphanumeric_char(s[0]) {
        (if at_boundary {
            char_upper(s[0])
        } else {
            char_lower(s[0])
        }) + title_go(s.drop_first(), false)
    } else {
        seq![s[0]] + title_go(s.drop_first(), true)
    }
}

proof fn lemma_title_go_push(s: Seq<char>, b: bool, c: char)
    ensures
        title_go(s.push(c), b) == title_go(s, b) + if !is_alphanumeric_char(c) {
            seq![c]
        } else if (if s.len() == 0 {
            b
        } else {
            !is_alphanumeric_char(s.last())
        }) {
            char_upper(c)
        } else {
            char_lower(c)
        },
    decreases s.len(),
{
    if s.len() == 0 {
        let x = if !is_alphanumeric_char(c) {
            seq![c]
        } else if b {
            char_upper(c)
        } else {
            char_lower(c)
        };
        assert(s.push(c) =~= seq![c]);
        assert(seq![c].drop_first() =~= Seq::<char>::empty());
        assert(title_go(s, b) == Seq::<char>::empty());
        assert(title_go(Seq::<char>::empty(), false) == Seq::<char>::empty());
        assert(title_go(Seq::<char>::empty(), true) == Seq::<char>::empty());
        assert(title_go(seq![c], b) == x + title_go(seq![c].drop_first(), !is_alphanumeric_char(c)));
        assert(title_go(seq![c], b) =~= x);
        assert(Seq::<char>::empty() + x =~= x);
    } else {
        assert(s.push(c)[0] == s[0]);
        assert(s.push(c).drop_first() =~= s.drop_first().push(c));
        let nb = !is_alphanumeric_char(s[0]);
        lemma_title_go_push(s.drop_first(), nb, c);
        if s.len() > 1 {
            assert(s.drop_first().last() == s.last());
        }
        let head = if is_alphanumeric_char(s[0]) {
            if b {
                char_upper(s[0])
            } else {
                char_lower(s[0])
            }
        } else {
            seq![s[0]]
        };
        let x = if !is_alphanumeric_char(c) {
            seq![c]
        } else if (if s.drop_first().len() == 0 {
            nb
        } else {
            !is_alphanumeric_char(s.drop_first().last())
        }) {
            char_upper(c)
        } else {
            char_lower(c)
        };
        assert(title_go(s, b) == head + title_go(s.drop_first(), nb));
        assert(title_go(s.push(c), b) == head + title_go(s.drop_first().push(c), nb));
        assert(head + (title_go(s.drop_first(), nb) + x) =~= (head + title_go(s.drop_first(), nb)) + x);
    }
}

/// Title case, one character at a time: appending a character to a name appends, to its
/// title-cased form, the character uppercased when it is alphanumeric and starts a word
/// (the name is empty or ends with a non-alphanumeric character), lowercased when it is
/// alphanumeric and continues a word, and the character itself otherwise. With the empty
/// name giving the empty result, this fixes the title case of every name.
pub proof fn lemma_title_case_appends(s: Seq<char>, c: char)
    ensures
        change_case_spec(seq![], CaseMode::Title) == Seq::<char>::empty(),
        change_case_spec(s.push(c), CaseMode::Title) == change_case_spec(s, CaseMode::Title) + if !is_alphanumeric_char(c) {
            seq![c]
        } else if s.len() == 0 || !is_alphanumeric_char(s.last()) {
            char_upper(c)
        } else {
            char_lower(c)
        },
{
    lemma_title_go_push(s, true, c);
}

/// Sentence case over an already lowercased string: the first alphabetic character is
/// uppercased, everything else kept.
pub open spec fn sentence_go(s: Seq<char>, done: bool) -> Seq<char>
    decreases s.len(),
{
    if s.len() == 0 {
        seq![]
    } else if !done && is_alphabetic_char(s[0]) {
        char_upper(s[0]) + sentence_go(s.drop_first(), true)
    } else {
        seq![s[0]] + sentence_go(s.drop_first(), done)
    }
}

proof fn lemma_sentence_done(t: Seq<char>)
    ensures
        sentence_go(t, true) == t,
    decreases t.len(),
{
    if t.len() > 0 {
        lemma_sentence_done(t.drop_first());
        assert(seq![t[0]] + t.drop_first() =~= t);
    }
}

proof fn lemma_sentence_first(t: Seq<char>, k: int)
    requires
        0 <= k <= t.len(),
        forall|j: int| 0 <= j < k ==> !is_alphabetic_char(#[trigger] t[j]),
        k < t.len() ==> is_alphabetic_char(t[k]),
    ensures
        sentence_go(t, false) == if k < t.len() {
            t.take(k) + char_upper(t[k]) + t.skip(k + 1)
        } else {
            t
        },
    decreases k,
{
    if k == 0 {
        if t.len() > 0 {
            lemma_sentence_done(t.drop_first());
            assert(t.take(0) + char_upper(t[0]) + t.skip(1) =~= char_upper(t[0]) + t.drop_first());
        }
    } else {
        let t1 = t.drop_first();
        assert(!is_alphabetic_char(t[0]));
        assert forall|j: int| 0 <= j < k - 1 implies !is_alphabetic_char(#[trigger] t1[j]) by {
            assert(t1[j] == t[j + 1]);
        }
        if k < t.len() {
            assert(t1[k - 1] == t[k]);
        }
        lemma_sentence_first(t1, k - 1);
        if k < t.len() {
            assert(seq![t[0]] + (t1.take(k - 1) + char_upper(t1[k - 1]) + t1.skip(k)) =~= t.take(k)
                + char_upper(t[k]) + t.skip(k + 1));
        } else {
            assert(seq![t[0]] + t1 =~= t);
        }
    }
}

/// Sentence case uppercases exactly the first alphabetic character of the lowercased name
/// and keeps everything else of it: with `k` the index of that character, the result is the
/// lowercased name with position `k` uppercased; without one, it is the lowercased name.
pub proof fn lemma_sentence_case_first_letter(s: Seq<char>, k: int)
    requires
        0 <= k <= str_lower(s).len(),
        forall|j: int| 0 <= j < k ==> !is_alphabetic_char(#[trigger] str_lower(s)[j]),
        k < str_lower(s).len() ==> is_alphabetic_char(str_lower(s)[k]),
    ensures
        change_case_spec(s, CaseMode::Sentence) == if k < str_lower(s).len() {
            str_lower(s).take(k) + char_upper(str_lower(s)[k]) + str_lower(s).skip(k + 1)
        } else {
            str_lower(s)
        },
{
    lemma_sentence_first(str_lower(s), k);
}

/// Word separators: whitespace, `_`, `-` and `.`.
pub open spec fn is_word_sep(c: char) -> bool {
    is_ws(c) || c == '_' || c == '-' || c == '.'
}

/// Splits into words, breaking at separators (which are dropped) and at camelCase
/// boundaries: an uppercase character right after a lowercase letter or an ASCII digit
/// starts a new word. `cur` is the word being built and `prev` its last character.
pub open spec fn words_go(s: Seq<char>, cur: Seq<char>, prev: Option<char>) -> Seq<Seq<char>>
    decreases s.len(),
{
    if s.len() == 0 {
        if cur.len() > 0 {
            seq![cur]
        } else {
            seq![]
        }
    } else {
        let c = s[0];
        if is_word_sep(c) {
            (if cur.len() > 0 {
                seq![cur]
            } else {
                seq![]
            }) + words_go(s.drop_first(), seq![], None)
        } else if prev is Some && (is_lowercase_char(prev->0) || is_digit(prev->0))
            && is_uppercase_char(c) && cur.len() > 0 {
            seq![cur] + words_go(s.drop_first(), seq![c], Some(c))
        } else {
            words_go(s.drop_first(), cur.push(c), Some(c))
        }
    }
}

/// The words of `s`.
pub open spec fn words_spec(s: Seq<char>) -> Seq<Seq<char>> {
    words_go(s, seq![], None)
}

/// First character uppercased (`char::to_uppercase`), the rest lowercased.
pub open spec fn capitalize_spec(w: Seq<char>) -> Seq<char> {
    if w.len() == 0 {
        seq![]
    } else {
        char_upper(w[0]) + str_lower(w.drop_first())
    }
}

/// Joins words with `sep`, capitalizing each; with `lower_first` the first word is
/// lowercased instead (camelCase).
pub open spec fn join_go(ws: Seq<Seq<char>>, sep: Seq<char>, lower_first: bool, first: bool) -> Seq<char>
    decreases ws.len(),
{
    if ws.len() == 0 {
        seq![]
    } else {
        (if first {
            seq![]
        } else {
            sep
        }) + (if first && lower_first {
            str_lower(ws[0])
        } else {
            capitalize_spec(ws[0])
        }) + join_go(ws.drop_first(), sep, lower_first, false)
    }
}

/// Plain join of words with `sep` (`[String]::join`).
pub open spec fn join_plain(ws: Seq<Seq<char>>, sep: Seq<char>, first: bool) -> Seq<char>
    decreases ws.len(),
{
    if ws.len() == 0 {
        seq![]
    } else {
        (if first {
            seq![]
        } else {
            sep
        }) + ws[0] + join_plain(ws.drop_first(), sep, false)
    }
}

/// The result of each case mode.
pub open spec fn change_case_spec(s: Seq<char>, mode: CaseMode) -> Seq<char> {
    match mode {
        CaseMode::Lower => str_lower(s),
        CaseMode::Upper => str_upper(s),
        CaseMode::Title => title_go(s, true),
        CaseMode::Sentence => sentence_go(str_lower(s), false),
        CaseMode::Camel => join_go(words_spec(s), seq![], true, true),
        CaseMode::Snake => str_lower(join_plain(words_spec(s), seq!['_'], true)),
        CaseMode::Kebab => str_lower(join_plain(words_spec(s), seq!['-'], true)),
    }
}

/// The character views of a list of words.
pub open spec fn views(ws: Seq<Vec<char>>) -> Seq<Seq<char>> {
    ws.map_values(|w: Vec<char>| w@)
}

pub fn change_case(s: &str, mode: CaseMode) -> (r: String)
    ensures
        r@ == change_case_spec(s@, mode),
{
    let chars = str_to_chars(s);
    match mode {
        CaseMode::Lower => string_to_lower_str(s),
        CaseMode::Upper => {
            let u = upper_chars(&chars);
            string_from_chars(u.as_slice())
        },
        CaseMode::Title => {
            let t = title_case(&chars);
            string_from_chars(t.as_slice())
        },
        CaseMode::Sentence => {
            let t = sentence_case(&chars);
            string_from_chars(t.as_slice())
        },
        CaseMode::Camel => {
            let t = join_words(&chars, &Vec::new(), true);
            string_from_chars(t.as_slice())
        },
        CaseMode::Snake => {
            let ws = words(&chars);
            let mut sep: Vec<char> = Vec::new();
            sep.push('_');
            let j = join_plain_exec(&ws, &sep);
            let l = lower_chars(&j);
            string_from_chars(l.as_slice())
        },
        CaseMode::Kebab => {
            let ws = words(&chars);
            let mut sep: Vec<char> = Vec::new();
            sep.push('-');
            let j = join_plain_exec(&ws, &sep);
            let l = lower_chars(&j);
            string_from_chars(l.as_slice())
        },
    }
}

fn string_to_lower_str(s: &str) -> (r: String)
    ensures
        r@ == str_lower(s@),
{
    let v = str_to_chars(s);
    let l = lower_chars(&v);
    string_from_chars(l.as_slice())
}

/// Capitalize the first letter of each word, preserving separators.
fn title_case(s: &Vec<char>) -> (r: Vec<char>)
    ensures
        r@ == title_go(s@, true),
{
    let mut out: Vec<char> = Vec::new();
    let mut at_boundary = true;
    let mut i: usize = 0;
    assert(s@.skip(0) =~= s@);
    while i < s.len()
        invariant
            i <= s.len(),
            out@ + title_go(s@.skip(i as int), at_boundary) == title_go(s@, true),
        decreases s.len() - i,
    {
        let c = s[i];
        let ghost rest = s@.skip(i as int);
        let ghost ab = at_boundary;
        assert(rest.drop_first() =~= s@.skip(i + 1));
        assert(rest[0] == c);
        let ghost before = out@;
        if char_is_alphanumeric(c) {
            if at_boundary {
                let u = char_to_upper(c);
                push_all(&mut out, &u);
            } else {
                let l = char_to_lower(c);
                push_all(&mut out, &l);
            }
            at_boundary = false;
        } else {
            out.push(c);
            at_boundary = true;
        }
        i = i + 1;
        assert(out@ + title_go(s@.skip(i as int), at_boundary) =~= before + title_go(rest, ab));
    }
    assert(out@ + title_go(s@.skip(i as int), at_boundary) =~= out@);
    out
}

/// Lowercase everything, then capitalize the first alphabetic char.
fn sentence_case(s: &Vec<char>) -> (r: Vec<char>)
    ensures
        r@ == sentence_go(str_lower(s@), false),
{
    let lower = lower_chars(s);
    let mut out: Vec<char> = Vec::new();
    let mut done = false;
    let mut i: usize = 0;
    assert(lower@.skip(0) =~= lower@);
    while i < lower.len()
        invariant
            i <= lower.len(),
            out@ + sentence_go(lower@.skip(i as int), done) == sentence_go(lower@, false),
        decreases lower.len() - i,
    {
        let c = lower[i];
        let ghost rest = lower@.skip(i as int);
        let ghost d = done;
        assert(rest.drop_first() =~= lower@.skip(i + 1));
        assert(rest[0] == c);
        let ghost before = out@;
        if !done && char_is_alphabetic(c) {
            let u = char_to_upper(c);
            push_all(&mut out, &u);
            done = true;
        } else {
            out.push(c);
        }
        i = i + 1;
        assert(out@ + sentence_go(lower@.skip(i as int), done) =~= before + sentence_go(rest, d));
    }
    assert(out@ + sentence_go(lower@.skip(i as int), done) =~= out@);
    out
}

fn is_word_sep_exec(c: char) -> (r: bool)
    ensures
        r == is_word_sep(c),
{
    char_is_whitespace(c) || c == '_' || c == '-' || c == '.'
}

/// Split into words, breaking on separators and camelCase boundaries.
fn words(s: &Vec<char>) -> (r: Vec<Vec<char>>)
    ensures
        views(r@) == words_spec(s@),
{
    let mut result: Vec<Vec<char>> = Vec::new();
    let mut cur: Vec<char> = Vec::new();
    let mut prev: Option<char> = None;
    let mut i: usize = 0;
    assert(s@.skip(0) =~= s@);
    assert(views(result@) =~= Seq::<Seq<char>>::empty());
    while i < s.len()
        invariant
            i <= s.len(),
            views(result@) + words_go(s@.skip(i as int), cur@, prev) == words_spec(s@),
        decreases s.len() - i,
    {
        let c = s[i];
        let ghost rest = s@.skip(i as int);
        let ghost before = views(result@);
        let ghost cur0 = cur@;
        let ghost prev0 = prev;
        assert(rest.drop_first() =~= s@.skip(i + 1));
        assert(rest[0] == c);
        if is_word_sep_exec(c) {
            if cur.len() > 0 {
                let w = cur;
                cur = Vec::new();
                result.push(w);
                assert(views(result@) =~= before.push(cur0));
            } else {
                assert(views(result@) =~= before + seq![]);
                assert(cur@ =~= Seq::<char>::empty());
            }
            prev = None;
            i = i + 1;
            assert(views(result@) + words_go(s@.skip(i as int), cur@, prev)
                =~= before + words_go(rest, cur0, prev0));
        } else {
            let split = match prev {
                Some(p) => (char_is_lowercase(p) || (p >= '0' && p <= '9')) && char_is_uppercase(c)
                    && cur.len() > 0,
                None => false,
            };
            assert(split == (prev0 is Some && (is_lowercase_char(prev0->0) || is_digit(prev0->0))
                && is_uppercase_char(c) && cur0.len() > 0));
            if split {
                let w = cur;
                cur = Vec::new();
                result.push(w);
                cur.push(c);
                assert(views(result@) =~= before.push(cur0));
                assert(cur@ =~= seq![c]);
                assert(words_go(rest, cur0, prev0) == seq![cur0] + words_go(rest.drop_first(), seq![c], Some(c)));
            } else {
                cur.push(c);
                assert(words_go(rest, cur0, prev0) == words_go(rest.drop_first(), cur0.push(c), Some(c)));
            }
            prev = Some(c);
            i = i + 1;
            assert(views(result@) + words_go(s@.skip(i as int), cur@, prev)
                =~= before + words_go(rest, cur0, prev0));
        }
    }
    let ghost before = views(result@);
    if cur.len() > 0 {
        let ghost c0 = cur@;
        result.push(cur);
        assert(views(result@) =~= before.push(c0));
    }
    assert(views(result@) =~= before + words_go(s@.skip(i as int), cur@, prev));
    result
}

/// First character uppercased, the rest lowercased.
fn capitalize(w: &Vec<char>) -> (r: Vec<char>)
    ensures
        r@ == capitalize_spec(w@),
{
    if w.len() == 0 {
        return Vec::new();
    }
    let mut out = char_to_upper(w[0]);
    let rest = slice_chars(w, 1, w.len());
    let l = lower_chars(&rest);
    push_all(&mut out, &l);
    assert(rest@ =~= w@.drop_first());
    out
}

/// Join words with a separator, capitalizing each (camelCase keeps the first word lower).
fn join_words(s: &Vec<char>, sep: &Vec<char>, lower_first: bool) -> (r: Vec<char>)
    ensures
        r@ == join_go(words_spec(s@), sep@, lower_first, true),
{
    let ws = words(s);
    let ghost wv = views(ws@);
    let mut out: Vec<char> = Vec::new();
    let mut i: usize = 0;
    assert(wv.skip(0) =~= wv);
    while i < ws.len()
        invariant
            i <= ws.len(),
            wv == views(ws@),
            out@ + join_go(wv.skip(i as int), sep@, lower_first, i == 0) == join_go(
                wv,
                sep@,
                lower_first,
                true,
            ),
        decreases ws.len() - i,
    {
        let ghost rest = wv.skip(i as int);
        let ghost before = out@;
        assert(rest.drop_first() =~= wv.skip(i + 1));
        assert(rest[0] == ws@[i as int]@);
        if i > 0 {
            push_all(&mut out, sep);
        }
        if i == 0 && lower_first {
            let l = lower_chars(&ws[i]);
            push_all(&mut out, &l);
        } else {
            let c = capitalize(&ws[i]);
            push_all(&mut out, &c);
        }
        i = i + 1;
        assert(out@ + join_go(wv.skip(i as int), sep@, lower_first, i == 0) =~= before + join_go(
            rest,
            sep@,
            lower_first,
            i - 1 == 0,
        ));
    }
    assert(out@ + join_go(wv.skip(i as int), sep@, lower_first, i == 0) =~= out@);
    out
}

/// `[String]::join(sep)` over words.
fn join_plain_exec(ws: &Vec<Vec<char>>, sep: &Vec<char>) -> (r: Vec<char>)
    ensures
        r@ == join_plain(views(ws@), sep@, true),
{
    let ghost wv = views(ws@);
    let mut out: Vec<char> = Vec::new();
    let mut i: usize = 0;
    assert(wv.skip(0) =~= wv);
    while i < ws.len()
        invariant
            i <= ws.len(),
            wv == views(ws@),
            out@ + join_plain(wv.skip(i as int), sep@, i == 0) == join_plain(wv, sep@, true),
        decreases ws.len() - i,
    {
        let ghost rest = wv.skip(i as int);
        let ghost before = out@;
        assert(rest.drop_first() =~= wv.skip(i + 1));
        assert(rest[0] == ws@[i as int]@);
        if i > 0 {
            push_all(&mut out, sep);
        }
        push_all(&mut out, &ws[i]);
        i = i + 1;
        assert(out@ + join_plain(wv.skip(i as int), sep@, i == 0) =~= before + join_plain(
            rest,
            sep@,
            i - 1 == 0,
        ));
    }
    assert(out@ + join_plain(wv.skip(i as int), sep@, i == 0) =~= out@);
    out
}


// ---------------------------------------------------------------------------------------
// Insert / remove
// ---------------------------------------------------------------------------------------

/// `index` clamped to `0..=len`.
pub open spec fn clamp_index(index: i64, len: nat) -> nat {
    if index < 0 {
        0
    } else if index > len {
        len
    } else {
        index as nat
    }
}

/// `text` inserted before, after, or at character `index` (clamped) of `s`.
pub open spec fn insert_spec(s: Seq<char>, text: Seq<char>, position: InsertPosition, index: i64) -> Seq<char> {
    match position {
        InsertPosition::Prefix => text + s,
        InsertPosition::Suffix => s + text,
        InsertPosition::AtIndex => {
            let i = clamp_index(index, s.len()) as int;
            s.take(i) + text + s.skip(i)
        },
    }
}

pub fn insert(s: &str, text: &str, position: InsertPosition, index: i64) -> (r: String)
    ensures
        r@ == insert_spec(s@, text@, position, index),
{
    let chars = str_to_chars(s);
    let t = str_to_chars(text);
    let mut out: Vec<char> = Vec::new();
    match position {
        InsertPosition::Prefix => {
            push_all(&mut out, &t);
            push_all(&mut out, &chars);
        },
        InsertPosition::Suffix => {
            push_all(&mut out, &chars);
            push_all(&mut out, &t);
        },
        InsertPosition::AtIndex => {
            let len = chars.len();
            let i: usize = if index < 0 {
                0
            } else if index as u64 > len as u64 {
                len
            } else {
                index as usize
            };
            let head = slice_chars(&chars, 0, i);
            let tail = slice_chars(&chars, i, len);
            push_all(&mut out, &head);
            push_all(&mut out, &t);
            push_all(&mut out, &tail);
            assert(tail@ =~= chars@.skip(i as int));
        },
    }
    string_from_chars(out.as_slice())
}

/// The half-open character range `start..end` that a remove step deletes from a name of
/// `len` characters.
pub open spec fn remove_range(len: nat, from: RemoveFrom, count: nat, index: nat) -> (nat, nat) {
    match from {
        RemoveFrom::Start => (0, if count < len { count } else { len }),
        RemoveFrom::End => (if count < len { (len - count) as nat } else { 0 }, len),
        RemoveFrom::Index => {
            let start = if index < len { index } else { len };
            (start, if start + count < len { start + count } else { len })
        },
    }
}

/// `s` with the characters of `remove_range` deleted.
pub open spec fn remove_spec(s: Seq<char>, from: RemoveFrom, count: nat, index: nat) -> Seq<char> {
    let (start, end) = remove_range(s.len(), from, count, index);
    s.take(start as int) + s.skip(end as int)
}

/// Removing from a character index must not overflow `index + count` (the computation
/// the step performs).
pub open spec fn remove_fits(len: nat, from: RemoveFrom, count: usize, index: usize) -> bool {
    from == RemoveFrom::Index ==> (if index < len {
        index as int
    } else {
        len as int
    }) + count <= usize::MAX
}

/// Removing as many characters as were inserted, from where they were inserted, gives the
/// name back: a prefix from the start, a suffix from the end, and text at an index from
/// that (clamped) index.
pub proof fn lemma_remove_undoes_insert(s: Seq<char>, text: Seq<char>, position: InsertPosition, index: i64)
    ensures
        remove_spec(
            insert_spec(s, text, position, index),
            match position {
                InsertPosition::Prefix => RemoveFrom::Start,
                InsertPosition::Suffix => RemoveFrom::End,
                InsertPosition::AtIndex => RemoveFrom::Index,
            },
            text.len(),
            clamp_index(index, s.len()),
        ) == s,
{
    let t = insert_spec(s, text, position, index);
    match position {
        InsertPosition::Prefix => {
            assert(t.take(0) + t.skip(text.len() as int) =~= s);
        },
        InsertPosition::Suffix => {
            assert(t.take(s.len() as int) + t.skip(t.len() as int) =~= s);
        },
        InsertPosition::AtIndex => {
            let i = clamp_index(index, s.len()) as int;
            assert(t.take(i) + t.skip(i + text.len()) =~= s);
        },
    }
}

pub fn remove(s: &str, from: RemoveFrom, count: usize, index: usize) -> (r: String)
    requires
        remove_fits(s@.len(), from, count, index),
    ensures
        r@ == remove_spec(s@, from, count as nat, index as nat),
{
    let chars = str_to_chars(s);
    let len = chars.len();
    let (start, end): (usize, usize) = match from {
        RemoveFrom::Start => (0, if count < len { count } else { len }),
        RemoveFrom::End => (if count < len { len - count } else { 0 }, len),
        RemoveFrom::Index => {
            let start = if index < len { index } else { len };
            let e = start + count;
            (start, if e < len { e } else { len })
        },
    };
    let head = slice_chars(&chars, 0, start);
    let tail = slice_chars(&chars, end, len);
    let mut out: Vec<char> = Vec::new();
    push_all(&mut out, &head);
    push_all(&mut out, &tail);
    assert(tail@ =~= chars@.skip(end as int));
    string_from_chars(out.as_slice())
}

// ---------------------------------------------------------------------------------------
// Clean up
// ---------------------------------------------------------------------------------------

/// Folds common Latin diacritics to ASCII; unmapped characters pass through unchanged.
pub open spec fn fold_spec(c: char) -> char {
    match c {
        'à' | 'á' | 'â' | 'ã' | 'ä' | 'å' | 'ā' | 'ă' | 'ą' => 'a',
        'À' | 'Á' | 'Â' | 'Ã' | 'Ä' | 'Å' | 'Ā' | 'Ă' | 'Ą' => 'A',
        'è' | 'é' | 'ê' | 'ë' | 'ē' | 'ĕ' | 'ė' | 'ę' | 'ě' => 'e',
        'È' | 'É' | 'Ê' | 'Ë' | 'Ē' | 'Ĕ' | 'Ė' | 'Ę' | 'Ě' => 'E',
        'ì' | 'í' | 'î' | 'ï' | 'ī' | 'ĭ' | 'į' => 'i',
        'Ì' | 'Í' | 'Î' | 'Ï' | 'Ī' | 'Ĭ' | 'Į' => 'I',
        'ò' | 'ó' | 'ô' | 'õ' | 'ö' | 'ø' | 'ō' | 'ŏ' | 'ő' => 'o',
        'Ò' | 'Ó' | 'Ô' | 'Õ' | 'Ö' | 'Ø' | 'Ō' | 'Ŏ' | 'Ő' => 'O',
        'ù' | 'ú' | 'û' | 'ü' | 'ū' | 'ŭ' | 'ů' | 'ű' | 'ų' => 'u',
        'Ù' | 'Ú' | 'Û' | 'Ü' | 'Ū' | 'Ŭ' | 'Ů' | 'Ű' | 'Ų' => 'U',
        'ñ' | 'ń' | 'ņ' | 'ň' => 'n',
        'Ñ' | 'Ń' | 'Ņ' | 'Ň' => 'N',
        'ç' | 'ć' | 'ĉ' | 'ċ' | 'č' => 'c',
        'Ç' | 'Ć' | 'Ĉ' | 'Ċ' | 'Č' => 'C',
        'ý' | 'ÿ' => 'y',
        'Ý' | 'Ÿ' => 'Y',
        'š' | 'ś' | 'ŝ' | 'ş' => 's',
        'Š' | 'Ś' | 'Ŝ' | 'Ş' => 'S',
        'ž' | 'ź' | 'ż' => 'z',
        'Ž' | 'Ź' | 'Ż' => 'Z',
        _ => c,
    }
}

/// Fold common Latin diacritics to ASCII (intentionally small; unmapped chars pass
/// through unchanged).
fn fold_diacritic(c: char) -> (r: char)
    ensures
        r == fold_spec(c),
{
    match c {
        'à' | 'á' | 'â' | 'ã' | 'ä' | 'å' | 'ā' | 'ă' | 'ą' => 'a',
        'À' | 'Á' | 'Â' | 'Ã' | 'Ä' | 'Å' | 'Ā' | 'Ă' | 'Ą' => 'A',
        'è' | 'é' | 'ê' | 'ë' | 'ē' | 'ĕ' | 'ė' | 'ę' | 'ě' => 'e',
        'È' | 'É' | 'Ê' | 'Ë' | 'Ē' | 'Ĕ' | 'Ė' | 'Ę' | 'Ě' => 'E',
        'ì' | 'í' | 'î' | 'ï' | 'ī' | 'ĭ' | 'į' => 'i',
        'Ì' | 'Í' | 'Î' | 'Ï' | 'Ī' | 'Ĭ' | 'Į' => 'I',
        'ò' | 'ó' | 'ô' | 'õ' | 'ö' | 'ø' | 'ō' | 'ŏ' | 'ő' => 'o',
        'Ò' | 'Ó' | 'Ô' | 'Õ' | 'Ö' | 'Ø' | 'Ō' | 'Ŏ' | 'Ő' => 'O',
        'ù' | 'ú' | 'û' | 'ü' | 'ū' | 'ŭ' | 'ů' | 'ű' | 'ų' => 'u',
        'Ù' | 'Ú' | 'Û' | 'Ü' | 'Ū' | 'Ŭ' | 'Ů' | 'Ű' | 'Ų' => 'U',
        'ñ' | 'ń' | 'ņ' | 'ň' => 'n',
        'Ñ' | 'Ń' | 'Ņ' | 'Ň' => 'N',
        'ç' | 'ć' | 'ĉ' | 'ċ' | 'č' => 'c',
        'Ç' | 'Ć' | 'Ĉ' | 'Ċ' | 'Č' => 'C',
        'ý' | 'ÿ' => 'y',
        'Ý' | 'Ÿ' => 'Y',
        'š' | 'ś' | 'ŝ' | 'ş' => 's',
        'Š' | 'Ś' | 'Ŝ' | 'Ş' => 'S',
        'ž' | 'ź' | 'ż' => 'z',
        'Ž' | 'Ź' | 'Ż' => 'Z',
        _ => c,
    }
}

/// Every run of whitespace replaced by a single space.
pub open spec fn collapse_go(s: Seq<char>, in_ws: bool) -> Seq<char>
    decreases s.len(),
{
    if s.len() == 0 {
        seq![]
    } else if is_ws(s[0]) {
        (if in_ws {
            seq![]
        } else {
            seq![' ']
        }) + collapse_go(s.drop_first(), true)
    } else {
        seq![s[0]] + collapse_go(s.drop_first(), false)
    }
}

/// The characters of `s` that are not whitespace, in order.
pub open spec fn non_ws(s: Seq<char>) -> Seq<char>
    decreases s.len(),
{
    if s.len() == 0 {
        seq![]
    } else {
        (if is_ws(s[0]) {
            seq![]
        } else {
            seq![s[0]]
        }) + non_ws(s.drop_first())
    }
}

proof fn lemma_collapse_go(s: Seq<char>, in_ws: bool)
    ensures
        ({
            let r = collapse_go(s, in_ws);
            &&& forall|k: int| 0 <= k < r.len() && is_ws(#[trigger] r[k]) ==> r[k] == ' '
            &&& forall|k: int| 0 <= k < r.len() - 1 && #[trigger] r[k] == ' ' ==> r[k + 1] != ' '
            &&& in_ws && r.len() > 0 ==> r[0] != ' '
            &&& non_ws(r) == non_ws(s)
        }),
    decreases s.len(),
{
    if s.len() > 0 {
        let c = s[0];
        let nxt = is_ws(c);
        lemma_collapse_go(s.drop_first(), nxt);
        let rest = collapse_go(s.drop_first(), nxt);
        let head: Seq<char> = if nxt {
            if in_ws {
                seq![]
            } else {
                seq![' ']
            }
        } else {
            seq![c]
        };
        let r = head + rest;
        assert(collapse_go(s, in_ws) == r);
        assert forall|k: int| 0 <= k < r.len() && is_ws(#[trigger] r[k]) implies r[k] == ' ' by {
            if k >= head.len() {
                assert(r[k] == rest[k - head.len()]);
            }
        }
        assert forall|k: int| 0 <= k < r.len() - 1 && #[trigger] r[k] == ' ' implies r[k + 1] != ' ' by {
            if k >= head.len() {
                assert(r[k] == rest[k - head.len()]);
                assert(r[k + 1] == rest[k + 1 - head.len()]);
            } else {
                assert(r[k + 1] == rest[0]);
            }
        }
        if in_ws && r.len() > 0 && nxt {
            assert(r[0] == rest[0]);
        }
        lemma_non_ws_concat(head, rest);
        assert(non_ws(s) == (if is_ws(c) {
            seq![]
        } else {
            seq![c]
        }) + non_ws(s.drop_first()));
        assert(non_ws(Seq::<char>::empty()) == Seq::<char>::empty());
        if nxt {
            if !in_ws {
                assert(is_ws(' '));
                assert(head.drop_first() =~= Seq::<char>::empty());
                assert(non_ws(head) == Seq::<char>::empty() + non_ws(head.drop_first()));
            }
            assert(non_ws(head) =~= Seq::<char>::empty());
        } else {
            assert(head.drop_first() =~= Seq::<char>::empty());
            assert(non_ws(head) == seq![c] + non_ws(head.drop_first()));
            assert(non_ws(head) =~= seq![c]);
        }
        assert(non_ws(r) =~= non_ws(s));
    }
}

proof fn lemma_non_ws_concat(a: Seq<char>, b: Seq<char>)
    ensures
        non_ws(a + b) == non_ws(a) + non_ws(b),
    decreases a.len(),
{
    if a.len() == 0 {
        assert(a + b =~= b);
    } else {
        lemma_non_ws_concat(a.drop_first(), b);
        assert((a + b).drop_first() =~= a.drop_first() + b);
        assert((a + b)[0] == a[0]);
    }
}

/// Collapsing whitespace turns every run of whitespace into one space: the result holds no
/// whitespace other than single spaces, never two spaces in a row, and every character that
/// is not whitespace, in the same order.
pub proof fn lemma_collapse_whitespace(s: Seq<char>)
    ensures
        ({
            let r = collapse_go(s, false);
            &&& forall|k: int| 0 <= k < r.len() && is_ws(#[trigger] r[k]) ==> r[k] == ' '
            &&& forall|k: int| 0 <= k < r.len() - 1 && #[trigger] r[k] == ' ' ==> r[k + 1] != ' '
            &&& non_ws(r) == non_ws(s)
        }),
{
    lemma_collapse_go(s, false);
}

/// Every `c` in `s` replaced by `rep` (`str::replace` with a `char` pattern).
pub open spec fn replace_char_go(s: Seq<char>, c: char, rep: Seq<char>) -> Seq<char>
    decreases s.len(),
{
    if s.len() == 0 {
        seq![]
    } else {
        (if s[0] == c {
            rep
        } else {
            seq![s[0]]
        }) + replace_char_go(s.drop_first(), c, rep)
    }
}

/// How many times `c` occurs in `s`.
pub open spec fn count_char(s: Seq<char>, c: char) -> nat
    decreases s.len(),
{
    if s.len() == 0 {
        0
    } else {
        count_char(s.drop_first(), c) + if s[0] == c {
            1nat
        } else {
            0nat
        }
    }
}

proof fn lemma_replace_char_all(s: Seq<char>, c: char, rep: Seq<char>)
    ensures
        !rep.contains(c) ==> !replace_char_go(s, c, rep).contains(c),
        replace_char_go(s, c, rep).len() == s.len() + count_char(s, c) * (rep.len() - 1),
    decreases s.len(),
{
    if s.len() == 0 {
        assert(count_char(s, c) == 0);
        assert(replace_char_go(s, c, rep).len() == 0);
    } else {
        lemma_replace_char_all(s.drop_first(), c, rep);
        let head = if s[0] == c {
            rep
        } else {
            seq![s[0]]
        };
        let tail = replace_char_go(s.drop_first(), c, rep);
        if !rep.contains(c) {
            assert forall|k: int| 0 <= k < (head + tail).len() implies (head + tail)[k] != c by {
                if k < head.len() {
                    assert((head + tail)[k] == head[k]);
                    if s[0] == c {
                        assert(rep[k] == head[k]);
                    }
                } else {
                    assert((head + tail)[k] == tail[k - head.len()]);
                }
            }
        }
        let m = count_char(s.drop_first(), c);
        let rl = rep.len() as int;
        assert((m + 1) * (rl - 1) == m * (rl - 1) + rl - 1) by (nonlinear_arith);
        assert(replace_char_go(s, c, rep) == head + tail);
        assert(tail.len() == s.len() - 1 + m * (rl - 1));
        if s[0] == c {
            assert(count_char(s, c) == m + 1);
            assert((head + tail).len() == rl + s.len() - 1 + m * (rl - 1));
            assert(count_char(s, c) * (rl - 1) == m * (rl - 1) + rl - 1);
        } else {
            assert(count_char(s, c) == m);
            assert((head + tail).len() == 1 + s.len() - 1 + m * (rl - 1));
        }
    }
}

/// Replacing spaces replaces every one of them: when `spaces_to` is `rep` and `rep` holds
/// no space, the cleaned name holds no space, and it is as long as the name cleaned without
/// replacement plus `rep.len() - 1` for each space that one had.
pub proof fn lemma_clean_up_replaces_every_space(
    s: Seq<char>,
    trim: bool,
    collapse_whitespace: bool,
    rep: Seq<char>,
    strip_diacritics: bool,
)
    ensures
        ({
            let base = clean_up_spec(s, trim, collapse_whitespace, None, strip_diacritics);
            let r = clean_up_spec(s, trim, collapse_whitespace, Some(rep), strip_diacritics);
            &&& !rep.contains(' ') ==> !r.contains(' ')
            &&& r.len() == base.len() + count_char(base, ' ') * (rep.len() - 1)
        }),
{
    let base = clean_up_spec(s, trim, collapse_whitespace, None, strip_diacritics);
    lemma_replace_char_all(base, ' ', rep);
}

/// The view of an optional string slice.
pub open spec fn opt_str_view(o: Option<&str>) -> Option<Seq<char>> {
    match o {
        Some(r) => Some(r@),
        None => None,
    }
}

/// Clean-up, applied in this order: fold diacritics, collapse whitespace runs to one
/// space, trim, then replace spaces by `spaces_to`.
pub open spec fn clean_up_spec(
    s: Seq<char>,
    trim: bool,
    collapse_whitespace: bool,
    spaces_to: Option<Seq<char>>,
    strip_diacritics: bool,
) -> Seq<char> {
    let a = if strip_diacritics {
        s.map_values(|c: char| fold_spec(c))
    } else {
        s
    };
    let b = if collapse_whitespace {
        collapse_go(a, false)
    } else {
        a
    };
    let c = if trim {
        trim_seq(b)
    } else {
        b
    };
    match spaces_to {
        Some(rep) => replace_char_go(c, ' ', rep),
        None => c,
    }
}

fn fold_all(s: &Vec<char>) -> (r: Vec<char>)
    ensures
        r@ == s@.map_values(|c: char| fold_spec(c)),
{
    let mut out: Vec<char> = Vec::new();
    let mut i: usize = 0;
    while i < s.len()
        invariant
            i <= s.len(),
            out@ == s@.take(i as int).map_values(|c: char| fold_spec(c)),
        decreases s.len() - i,
    {
        out.push(fold_diacritic(s[i]));
        i = i + 1;
        assert(s@.take(i as int).map_values(|c: char| fold_spec(c)) =~= s@.take(i - 1).map_values(
            |c: char| fold_spec(c),
        ).push(fold_spec(s@[i - 1])));
    }
    assert(s@.take(s.len() as int) =~= s@);
    out
}

/// Runs of whitespace collapsed to one space.
pub fn collapse_ws(s: &Vec<char>) -> (r: Vec<char>)
    ensures
        r@ == collapse_go(s@, false),
{
    let mut out: Vec<char> = Vec::new();
    let mut in_ws = false;
    let mut i: usize = 0;
    assert(s@.skip(0) =~= s@);
    while i < s.len()
        invariant
            i <= s.len(),
            out@ + collapse_go(s@.skip(i as int), in_ws) == collapse_go(s@, false),
        decreases s.len() - i,
    {
        let c = s[i];
        let ghost rest = s@.skip(i as int);
        let ghost w = in_ws;
        let ghost before = out@;
        assert(rest.drop_first() =~= s@.skip(i + 1));
        assert(rest[0] == c);
        if char_is_whitespace(c) {
            if !in_ws {
                out.push(' ');
            }
            in_ws = true;
        } else {
            out.push(c);
            in_ws = false;
        }
        i = i + 1;
        assert(out@ + collapse_go(s@.skip(i as int), in_ws) =~= before + collapse_go(rest, w));
    }
    assert(out@ + collapse_go(s@.skip(i as int), in_ws) =~= out@);
    out
}

fn replace_char(s: &Vec<char>, c: char, rep: &Vec<char>) -> (r: Vec<char>)
    ensures
        r@ == replace_char_go(s@, c, rep@),
{
    let mut out: Vec<char> = Vec::new();
    let mut i: usize = 0;
    assert(s@.skip(0) =~= s@);
    while i < s.len()
        invariant
            i <= s.len(),
            out@ + replace_char_go(s@.skip(i as int), c, rep@) == replace_char_go(s@, c, rep@),
        decreases s.len() - i,
    {
        let ghost rest = s@.skip(i as int);
        let ghost before = out@;
        assert(rest.drop_first() =~= s@.skip(i + 1));
        assert(rest[0] == s@[i as int]);
        if s[i] == c {
            push_all(&mut out, rep);
        } else {
            out.push(s[i]);
        }
        i = i + 1;
        assert(out@ + replace_char_go(s@.skip(i as int), c, rep@) =~= before + replace_char_go(
            rest,
            c,
            rep@,
        ));
    }
    assert(out@ + replace_char_go(s@.skip(i as int), c, rep@) =~= out@);
    out
}

pub fn clean_up(
    s: &str,
    trim: bool,
    collapse_whitespace: bool,
    spaces_to: Option<&str>,
    strip_diacritics: bool,
) -> (r: String)
    ensures
        r@ == clean_up_spec(s@, trim, collapse_whitespace, opt_str_view(spaces_to), strip_diacritics),
{
    let mut out = str_to_chars(s);
    if strip_diacritics {
        out = fold_all(&out);
    }
    if collapse_whitespace {
        out = collapse_ws(&out);
    }
    if trim {
        out = trim_chars(&out);
    }
    match spaces_to {
        Some(rep) => {
            let r = str_to_chars(rep);
            out = replace_char(&out, ' ', &r);
        },
        None => {},
    }
    string_from_chars(out.as_slice())
}

// ---------------------------------------------------------------------------------------
// Counter
// ---------------------------------------------------------------------------------------

/// `d` left-padded with `'0'` to at least `width` characters.
pub open spec fn pad_zeros(d: Seq<char>, width: nat) -> Seq<char> {
    if d.len() >= width {
        d
    } else {
        Seq::new((width - d.len()) as nat, |_i: int| '0') + d
    }
}

/// `format!("{num:0>padding$}")` for non-negative numbers, `num.to_string()` otherwise.
pub open spec fn format_counter_spec(num: int, padding: nat) -> Seq<char> {
    if num >= 0 {
        pad_zeros(dec_digits(num as nat), padding)
    } else {
        seq!['-'] + dec_digits((-num) as nat)
    }
}

/// Zero-pad an integer to a width (negatives are left unpadded).
fn format_counter(num: i64, padding: usize) -> (r: Vec<char>)
    ensures
        r@ == format_counter_spec(num as int, padding as nat),
{
    if num >= 0 {
        let d = u64_to_dec(num as u64);
        if d.len() >= padding {
            d
        } else {
            let mut out: Vec<char> = Vec::new();
            let n = padding - d.len();
            let mut i: usize = 0;
            while i < n
                invariant
                    i <= n,
                    out@ == Seq::new(i as nat, |_i: int| '0'),
                decreases n - i,
            {
                out.push('0');
                i = i + 1;
                assert(out@ =~= Seq::new(i as nat, |_i: int| '0'));
            }
            push_all(&mut out, &d);
            out
        }
    } else {
        let magnitude: u64 = ((-(num + 1)) as u64) + 1;
        let d = u64_to_dec(magnitude);
        let mut out: Vec<char> = Vec::new();
        out.push('-');
        push_all(&mut out, &d);
        out
    }
}

/// The counter number, then `separator`, before or after the name.
pub open spec fn counter_affix_spec(
    s: Seq<char>,
    value: int,
    padding: nat,
    separator: Seq<char>,
    position: AffixPosition,
) -> Seq<char> {
    let num = format_counter_spec(value, padding);
    match position {
        AffixPosition::Prefix => num + separator + s,
        AffixPosition::Suffix => s + separator + num,
    }
}

pub fn counter_affix(
    s: &str,
    value: i64,
    padding: usize,
    separator: &str,
    position: AffixPosition,
) -> (r: String)
    ensures
        r@ == counter_affix_spec(s@, value as int, padding as nat, separator@, position),
{
    let num = format_counter(value, padding);
    let mut out: Vec<char> = Vec::new();
    match position {
        AffixPosition::Prefix => {
            push_all(&mut out, &num);
            push_str(&mut out, separator);
            push_str(&mut out, s);
        },
        AffixPosition::Suffix => {
            push_str(&mut out, s);
            push_str(&mut out, separator);
            push_all(&mut out, &num);
        },
    }
    string_from_chars(out.as_slice())
}

} // verus!
