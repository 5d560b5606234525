//! Flat requirement lists: one specifier per line, with `#` comments and
//! `-` option lines.
use vstd::prelude::*;
use vstd::string::StrSliceExecFns;

use crate::name_set::{insert_name, is_name_set, text_set};
use crate::manifest::is_excluded;
use crate::names::{
    extract_package_name, is_unicode_white_space, is_white_space, normalize_package_name,
    specifier_name,
};

verus! {

/// `s` without its leading `White_Space` characters.
pub open spec fn trim_start(s: Seq<char>) -> Seq<char>
    decreases s.len(),
{
    if s.len() > 0 && is_unicode_white_space(s[0]) {
        trim_start(s.drop_first())
    } else {
        s
    }
}

/// `s` without its trailing `White_Space` characters.
pub open spec fn trim_end(s: Seq<char>) -> Seq<char>
    decreases s.len(),
{
    if s.len() > 0 && is_unicode_white_space(s.last()) {
        trim_end(s.drop_last())
    } else {
        s
    }
}

/// `s` without leading and trailing `White_Space` characters.
pub open spec fn trimmed(s: Seq<char>) -> Seq<char> {
    trim_end(trim_start(s))
}

/// The lines of `s`, split at each `'\n'`; the last line is what follows the
/// last `'\n'`, and may be empty.
pub open spec fn lines_of(s: Seq<char>) -> Seq<Seq<char>>
    decreases s.len(),
{
    if s.len() == 0 {
        seq![Seq::empty()]
    } else {
        let lines = lines_of(s.drop_last());
        if s.last() == '\n' {
            lines.push(Seq::empty())
        } else {
            lines.update(lines.len() - 1, lines.last().push(s.last()))
        }
    }
}

/// The dependency that one line declares: none for a blank, comment or
/// option line, or for an excluded name.
pub open spec fn line_name(line: Seq<char>) -> Option<Seq<char>> {
    let t = trimmed(line);
    if t.len() == 0 || t[0] == '#' || t[0] == '-' {
        None
    } else if is_excluded(specifier_name(t)) {
        None
    } else {
        Some(specifier_name(t))
    }
}

/// The dependencies that a sequence of lines declares.
pub open spec fn names_of_lines(lines: Seq<Seq<char>>) -> Set<Seq<char>>
    decreases lines.len(),
{
    if lines.len() == 0 {
        Set::empty()
    } else {
        let rest = names_of_lines(lines.drop_last());
        match line_name(lines.last()) {
            Some(n) => rest.insert(n),
            None => rest,
        }
    }
}

/// The dependencies that a requirements text declares.
pub open spec fn requirement_names(text: Seq<char>) -> Set<Seq<char>> {
    names_of_lines(lines_of(text))
}

proof fn lemma_trim_start(s: Seq<char>, a: int)
    requires
        0 <= a <= s.len(),
        forall|j: int| 0 <= j < a ==> is_unicode_white_space(#[trigger] s[j]),
        a == s.len() || !is_unicode_white_space(s[a]),
    ensures
        trim_start(s) == s.subrange(a, s.len() as int),
    decreases a,
{
    if a > 0 {
        let t = s.drop_first();
        assert forall|j: int| 0 <= j < a - 1 implies is_unicode_white_space(#[trigger] t[j]) by {
            assert(t[j] == s[j + 1]);
        }
        if a < s.len() {
            assert(t[a - 1] == s[a]);
        }
        lemma_trim_start(t, a - 1);
        assert(t.subrange(a - 1, t.len() as int) == s.subrange(a, s.len() as int));
    } else {
        assert(s.subrange(0, s.len() as int) == s);
    }
}

proof fn lemma_trim_end(t: Seq<char>, b: int)
    requires
        0 <= b <= t.len(),
        forall|j: int| b <= j < t.len() ==> is_unicode_white_space(#[trigger] t[j]),
        b == 0 || !is_unicode_white_space(t[b - 1]),
    ensures
        trim_end(t) == t.take(b),
    decreases t.len() - b,
{
    if b < t.len() {
        let u = t.drop_last();
        assert forall|j: int| b <= j < u.len() implies is_unicode_white_space(#[trigger] u[j]) by {
            assert(u[j] == t[j]);
        }
        if b > 0 {
            assert(u[b - 1] == t[b - 1]);
        }
        lemma_trim_end(u, b);
        assert(u.take(b) == t.take(b));
    } else {
        assert(t.take(b) == t);
    }
}

/// `s` without its leading and trailing `White_Space` characters.
pub fn trim_white_space(s: &str) -> (r: &str)
    ensures
        r@ == trimmed(s@),
{
    let n = s.unicode_len();
    let mut a: usize = 0;
    while a < n && is_white_space(s.get_char(a))
        invariant
            n == s@.len(),
            a <= n,
            forall|j: int| 0 <= j < a ==> is_unicode_white_space(#[trigger] s@[j]),
        decreases n - a,
    {
        a = a + 1;
    }
    let mut b: usize = n;
    while b > a && is_white_space(s.get_char(b - 1))
        invariant
            n == s@.len(),
            a <= b <= n,
            forall|j: int| b <= j < n ==> is_unicode_white_space(#[trigger] s@[j]),
        decreases b - a,
    {
        b = b - 1;
    }
    proof {
        lemma_trim_start(s@, a as int);
        let t = s@.subrange(a as int, n as int);
        assert forall|j: int| b - a <= j < t.len() implies is_unicode_white_space(#[trigger] t[j]) by {
            assert(t[j] == s@[j + a]);
        }
        if b > a {
            assert(t[b - a - 1] == s@[b - 1]);
        }
        lemma_trim_end(t, b - a);
        assert(t.take(b - a) == s@.subrange(a as int, b as int));
    }
    s.substring_char(a, b)
}

/// The normalised dependency name that one line of a requirements text
/// declares, if any.
pub fn requirement_line_name(line: &str) -> (r: Option<String>)
    ensures
        match line_name(line@) {
            Some(n) => r matches Some(s) && s@ == n,
            None => r is None,
        },
{
    let t = trim_white_space(line);
    if t.unicode_len() == 0 {
        return None;
    }
    let first = t.get_char(0);
    if first == '#' || first == '-' {
        return None;
    }
    let name = normalize_package_name(extract_package_name(t).as_str());
    if crate::manifest::is_excluded_name(name.as_str()) {
        None
    } else {
        Some(name)
    }
}

/// The normalised dependency names of a requirements text: per line, after
/// trimming, blank lines, `#` comments and `-` options are skipped, and
/// `python`, `poetry` and `poetry_core` (the normalised `poetry-core`) are
/// left out.
pub fn parse_requirements_str(content: &str) -> (r: Vec<String>)
    ensures
        is_name_set(r@),
        text_set(r@) == requirement_names(content@),
{
    let n = content.unicode_len();
    let mut dependencies: Vec<String> = Vec::new();
    let mut start: usize = 0;
    let mut i: usize = 0;
    proof {
        assert(text_set(dependencies@) == Set::<Seq<char>>::empty());
        assert(content@.take(0) == Seq::<char>::empty());
    }
    while i < n
        invariant
            n == content@.len(),
            start <= i <= n,
            lines_of(content@.take(i as int)).len() >= 1,
            lines_of(content@.take(i as int)).last() == content@.subrange(start as int, i as int),
            is_name_set(dependencies@),
            text_set(dependencies@) == names_of_lines(lines_of(content@.take(i as int)).drop_last()),
        decreases n - i,
    {
        let ghost lines = lines_of(content@.take(i as int));
        proof {
            assert(content@.take(i + 1).drop_last() == content@.take(i as int));
        }
        if content.get_char(i) == '\n' {
            match requirement_line_name(content.substring_char(start, i)) {
                Some(name) => insert_name(&mut dependencies, name),
                None => {},
            }
            proof {
                assert(lines.push(Seq::empty()).drop_last() == lines);
                assert(lines.drop_last().push(lines.last()) == lines);
                assert(names_of_lines(lines) == names_of_lines(lines.drop_last()).union(
                    match line_name(lines.last()) {
                        Some(x) => set![x],
                        None => Set::empty(),
                    },
                ));
                assert(text_set(dependencies@) == names_of_lines(lines));
                assert(content@.subrange(i + 1, i + 1) == Seq::<char>::empty());
            }
            start = i + 1;
        } else {
            proof {
                let c = content@[i as int];
                let next = lines.update(lines.len() - 1, lines.last().push(c));
                assert(next.drop_last() == lines.drop_last());
                assert(content@.subrange(start as int, i + 1) == content@.subrange(
                    start as int,
                    i as int,
                ).push(c));
            }
        }
        i = i + 1;
    }
    proof {
        assert(content@.take(n as int) == content@);
        let lines = lines_of(content@);
        assert(lines.drop_last().push(lines.last()) == lines);
    }
    match requirement_line_name(content.substring_char(start, n)) {
        Some(name) => insert_name(&mut dependencies, name),
        None => {},
    }
    proof {
        let lines = lines_of(content@);
        assert(names_of_lines(lines) == names_of_lines(lines.drop_last()).union(
            match line_name(lines.last()) {
                Some(x) => set![x],
                None => Set::empty(),
            },
        ));
    }
    dependencies
}

} // verus!
