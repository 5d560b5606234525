//! Package-name handling: cutting a dependency specifier down to its
//! package name, and canonicalising that name.
use vstd::prelude::*;
use vstd::string::StrSliceExecFns;
use vstd::string::StringExecFns;

verus! {

/// The characters that end the package-name part of a specifier.
pub open spec fn is_specifier_delimiter(c: char) -> bool {
    c == ' ' || c == '=' || c == '<' || c == '>' || c == '~' || c == ';' || c == '['
}

/// The Unicode `White_Space` property (PropList.txt).
pub open spec fn is_unicode_white_space(c: char) -> bool {
    ('\u{9}' <= c && c <= '\u{d}') || c == ' ' || c == '\u{85}' || c == '\u{a0}'
        || c == '\u{1680}' || ('\u{2000}' <= c && c <= '\u{200a}') || c == '\u{2028}'
        || c == '\u{2029}' || c == '\u{202f}' || c == '\u{205f}' || c == '\u{3000}'
}

/// The characters whose runs separate the words of a package name.
pub open spec fn is_name_separator(c: char) -> bool {
    is_unicode_white_space(c) || c == '-' || c == '_'
}

/// Index of the first specifier delimiter in `s`, or `s.len()` when there is none.
pub open spec fn first_delimiter(s: Seq<char>) -> nat
    decreases s.len(),
{
    if s.len() == 0 || is_specifier_delimiter(s[0]) {
        0
    } else {
        1 + first_delimiter(s.drop_first())
    }
}

/// The package name of a specifier: everything before its first delimiter.
pub open spec fn package_name_of(s: Seq<char>) -> Seq<char> {
    s.take(first_delimiter(s) as int)
}

/// Reads `s` left to right, returning the text written so far and whether a
/// separator run is pending between the last word written and the next one.
pub open spec fn collapse_scan(s: Seq<char>) -> (Seq<char>, bool)
    decreases s.len(),
{
    if s.len() == 0 {
        (Seq::empty(), false)
    } else {
        let (out, pending) = collapse_scan(s.drop_last());
        let c = s.last();
        if is_name_separator(c) {
            (out, out.len() > 0)
        } else if pending {
            (out + seq!['_', c], false)
        } else {
            (out.push(c), false)
        }
    }
}

/// The non-empty words of `s` between separator runs, joined by single underscores.
pub open spec fn collapse_separators(s: Seq<char>) -> Seq<char> {
    collapse_scan(s).0
}

/// The lowercase form that `str::to_lowercase` gives for `s`.
pub uninterp spec fn lowercase_of(s: Seq<char>) -> Seq<char>;

/// The canonical form of a distribution name.
pub open spec fn normalized_name(s: Seq<char>) -> Seq<char> {
    collapse_separators(lowercase_of(s))
}

/// The canonical package name that a raw dependency specifier declares.
pub open spec fn specifier_name(s: Seq<char>) -> Seq<char> {
    normalized_name(package_name_of(s))
}

/// A name in which every separator is a single inner underscore.
pub open spec fn is_collapsed(t: Seq<char>) -> bool {
    &&& forall|i: int| 0 <= i < t.len() && is_name_separator(#[trigger] t[i]) ==> t[i] == '_'
    &&& t.len() > 0 ==> !is_name_separator(t[0]) && !is_name_separator(t.last())
    &&& forall|i: int|
        0 <= i < t.len() - 1 && is_name_separator(#[trigger] t[i]) ==> !is_name_separator(t[i + 1])
}

proof fn lemma_scan_collapsed(s: Seq<char>)
    ensures
        is_collapsed(collapse_scan(s).0),
        collapse_scan(s).1 ==> collapse_scan(s).0.len() > 0,
    decreases s.len(),
{
    if s.len() > 0 {
        lemma_scan_collapsed(s.drop_last());
        let (out, pending) = collapse_scan(s.drop_last());
        let c = s.last();
        if !is_name_separator(c) {
            let t = collapse_scan(s).0;
            if pending {
                assert(t == out + seq!['_', c]);
                assert(t[out.len() as int] == '_');
                assert(t[out.len() as int + 1] == c);
                assert forall|i: int| 0 <= i < t.len() - 1 && is_name_separator(#[trigger] t[i])
                    implies !is_name_separator(t[i + 1]) by {
                    if i < out.len() - 1 {
                        assert(t[i] == out[i] && t[i + 1] == out[i + 1]);
                    } else if i == out.len() - 1 {
                        assert(t[i] == out.last());
                    }
                }
                assert forall|i: int| 0 <= i < t.len() && is_name_separator(#[trigger] t[i])
                    implies t[i] == '_' by {
                    if i < out.len() {
                        assert(t[i] == out[i]);
                    }
                }
            } else {
                assert(t == out.push(c));
                assert forall|i: int| 0 <= i < t.len() - 1 && is_name_separator(#[trigger] t[i])
                    implies !is_name_separator(t[i + 1]) by {
                    if i < out.len() - 1 {
                        assert(t[i] == out[i] && t[i + 1] == out[i + 1]);
                    } else {
                        assert(t[i] == out.last());
                    }
                }
                assert forall|i: int| 0 <= i < t.len() && is_name_separator(#[trigger] t[i])
                    implies t[i] == '_' by {
                    if i < out.len() {
                        assert(t[i] == out[i]);
                    }
                }
            }
        }
    }
}

proof fn lemma_scan_of_collapsed_prefix(t: Seq<char>, k: int)
    requires
        is_collapsed(t),
        0 <= k <= t.len(),
    ensures
        collapse_scan(t.take(k)) == (if k > 0 && is_name_separator(t[k - 1]) {
            (t.take(k - 1), true)
        } else {
            (t.take(k), false)
        }),
    decreases k,
{
    if k > 0 {
        lemma_scan_of_collapsed_prefix(t, k - 1);
        assert(t.take(k).drop_last() == t.take(k - 1));
        let c = t[k - 1];
        if is_name_separator(c) {
            assert(k - 1 > 0);
            assert(!is_name_separator(t[k - 2]));
        } else if k - 1 > 0 && is_name_separator(t[k - 2]) {
            assert(t[k - 2] == '_');
            assert(t.take(k) == t.take(k - 2) + seq!['_', c]);
        } else {
            assert(t.take(k) == t.take(k - 1).push(c));
        }
    }
}

/// Collapsing separators changes nothing in a name that is already collapsed.
pub proof fn lemma_collapsed_is_fixed(t: Seq<char>)
    requires
        is_collapsed(t),
    ensures
        collapse_separators(t) == t,
{
    lemma_scan_of_collapsed_prefix(t, t.len() as int);
    assert(t.take(t.len() as int) == t);
}

/// Collapsing separator runs is idempotent, for every input.
pub proof fn lemma_collapse_idempotent(s: Seq<char>)
    ensures
        collapse_separators(collapse_separators(s)) == collapse_separators(s),
{
    lemma_scan_collapsed(s);
    lemma_collapsed_is_fixed(collapse_separators(s));
}

/// Normalising a normalised name gives it back unchanged, for every name on
/// which lowercasing leaves the normalised form as it is.
pub proof fn lemma_normalize_idempotent(s: Seq<char>)
    requires
        lowercase_of(normalized_name(s)) == normalized_name(s),
    ensures
        normalized_name(normalized_name(s)) == normalized_name(s),
{
    lemma_collapse_idempotent(lowercase_of(s));
}

/// Whether `c` has the Unicode `White_Space` property.
pub fn is_white_space(c: char) -> (r: bool)
    ensures
        r == is_unicode_white_space(c),
{
    ('\u{9}' <= c && c <= '\u{d}') || c == ' ' || c == '\u{85}' || c == '\u{a0}' || c
        == '\u{1680}' || ('\u{2000}' <= c && c <= '\u{200a}') || c == '\u{2028}' || c
        == '\u{2029}' || c == '\u{202f}' || c == '\u{205f}' || c == '\u{3000}'
}

/// Relies on `str::to_lowercase`: the result depends on the characters alone.
#[verifier::external_body]
fn to_lowercase(s: &str) -> (r: String)
    ensures
        r@ == lowercase_of(s@),
{
    s.to_lowercase()
}

fn is_delimiter(c: char) -> (r: bool)
    ensures
        r == is_specifier_delimiter(c),
{
    c == ' ' || c == '=' || c == '<' || c == '>' || c == '~' || c == ';' || c == '['
}

fn is_separator(c: char) -> (r: bool)
    ensures
        r == is_name_separator(c),
{
    c == '-' || c == '_' || is_white_space(c)
}

proof fn lemma_first_delimiter(s: Seq<char>, k: int)
    requires
        0 <= k <= s.len(),
        forall|j: int| 0 <= j < k ==> !is_specifier_delimiter(#[trigger] s[j]),
        k == s.len() || is_specifier_delimiter(s[k]),
    ensures
        first_delimiter(s) == k,
    decreases k,
{
    if k > 0 {
        let t = s.drop_first();
        assert forall|j: int| 0 <= j < k - 1 implies !is_specifier_delimiter(#[trigger] t[j]) by {
            assert(t[j] == s[j + 1]);
        }
        if k < s.len() {
            assert(t[k - 1] == s[k]);
        }
        lemma_first_delimiter(t, k - 1);
    }
}

/// The package-name part of a dependency specifier: the text before the first
/// space, `=`, `<`, `>`, `~`, `;` or `[`, or the whole text if none occurs.
pub fn extract_package_name(dep_str: &str) -> (r: String)
    ensures
        r@ == package_name_of(dep_str@),
{
    let n = dep_str.unicode_len();
    let mut i: usize = 0;
    while i < n && !is_delimiter(dep_str.get_char(i))
        invariant
            n == dep_str@.len(),
            i <= n,
            forall|j: int| 0 <= j < i ==> !is_specifier_delimiter(#[trigger] dep_str@[j]),
        decreases n - i,
    {
        i = i + 1;
    }
    proof {
        lemma_first_delimiter(dep_str@, i as int);
    }
    String::from_str(dep_str.substring_char(0, i))
}

/// Collapses each run of whitespace, `-` and `_` in an already lowercased name
/// into one underscore, dropping runs at either end.
pub fn collapse_name_separators(lowered: &str) -> (r: String)
    ensures
        r@ == collapse_separators(lowered@),
{
    let n = lowered.unicode_len();
    let mut out = String::new();
    let mut pending = false;
    let mut i: usize = 0;
    while i < n
        invariant
            n == lowered@.len(),
            i <= n,
            (out@, pending) == collapse_scan(lowered@.take(i as int)),
        decreases n - i,
    {
        let c = lowered.get_char(i);
        proof {
            reveal_strlit("_");
            assert(lowered@.take(i + 1).drop_last() == lowered@.take(i as int));
            assert(lowered@.subrange(i as int, i + 1) == seq![c]);
        }
        if is_separator(c) {
            pending = out.unicode_len() > 0;
        } else {
            if pending {
                out.append("_");
                pending = false;
            }
            out.append(lowered.substring_char(i, i + 1));
            assert(out@ == collapse_scan(lowered@.take(i + 1)).0);
        }
        i = i + 1;
    }
    proof {
        assert(lowered@.take(n as int) == lowered@);
    }
    out
}

/// Canonical form of a Python distribution name: lowercased, with every run of
/// whitespace, `-` and `_` replaced by a single `_` and none at either end.
pub fn normalize_package_name(name: &str) -> (r: String)
    ensures
        r@ == normalized_name(name@),
{
    let lowered = to_lowercase(name);
    collapse_name_separators(lowered.as_str())
}

} // verus!
