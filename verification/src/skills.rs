//! Skills: Markdown files whose first level-one heading names them.
use vstd::prelude::*;
use crate::model::{Skill, SkillView};
use crate::order::{SortKey, stable_sort, stably_sorted};
use crate::paths::{file_stem_of, path_file_stem};
use crate::text::{lines_seq, split_lines, trim_start_seq, trim_start, trim_seq, trim, strip_leading,
    strip_leading_char, views, to_chars, from_chars, is_whitespace, is_ws, lemma_trim_start_at};

verus! {

/// A level-one ATX heading: at most three spaces, one `#`, then a space, a tab
/// or the end of the line.
pub open spec fn is_h1(line: Seq<char>) -> bool {
    let t = trim_start_seq(line);
    let k = line.len() - t.len();
    &&& k <= 3
    &&& forall|i: int| 0 <= i < k ==> #[trigger] line[i] == ' '
    &&& t.len() > 0
    &&& t[0] == '#'
    &&& (t.len() == 1 || t[1] == ' ' || t[1] == '\t')
}

/// Number of `#` that end the text.
pub open spec fn trailing_hashes(t: Seq<char>) -> nat
    decreases t.len(),
{
    if t.len() > 0 && t.last() == '#' {
        1 + trailing_hashes(t.drop_last())
    } else {
        0
    }
}

/// Heading content without its closing run of `#`, where there is one: a run
/// that is the whole content or that follows a space or a tab.
pub open spec fn drop_closing(t: Seq<char>) -> Seq<char> {
    let n = t.len();
    let j = trailing_hashes(t);
    if j == 0 {
        t
    } else if j == n {
        Seq::empty()
    } else if t[n - j - 1] == ' ' || t[n - j - 1] == '\t' {
        trim_seq(t.take(n - j))
    } else {
        t
    }
}

/// The text of a level-one heading line: what follows its `#`, without the
/// surrounding white space and without a closing run of `#`.
pub open spec fn h1_text(line: Seq<char>) -> Seq<char> {
    drop_closing(trim_seq(strip_leading(trim_start_seq(line), '#')))
}

/// The first level-one heading among the lines.
pub open spec fn first_h1(lines: Seq<Seq<char>>) -> Option<Seq<char>>
    decreases lines.len(),
{
    if lines.len() == 0 {
        None
    } else if is_h1(lines[0]) {
        Some(lines[0])
    } else {
        first_h1(lines.drop_first())
    }
}

/// The file name of the path without its extension, or nothing.
pub open spec fn stem_seq(path: Seq<char>) -> Seq<char> {
    match file_stem_of(path) {
        Some(s) => s,
        None => Seq::empty(),
    }
}

/// A skill's title: the text of its first level-one heading, else the file's
/// stem.
pub open spec fn skill_title(body: Seq<char>, path: Seq<char>) -> Seq<char> {
    match first_h1(lines_seq(body)) {
        Some(line) => h1_text(line),
        None => stem_seq(path),
    }
}

proof fn lemma_trailing_hashes_at(s: Seq<char>, j: int)
    requires
        0 <= j <= s.len(),
        forall|k: int| j <= k < s.len() ==> #[trigger] s[k] == '#',
        j == 0 || s[j - 1] != '#',
    ensures
        trailing_hashes(s) == s.len() - j,
    decreases s.len() - j,
{
    if j < s.len() {
        let t = s.drop_last();
        lemma_trailing_hashes_at(t, j);
    }
}

/// Whether the line is a level-one heading.
pub fn is_h1_line(line: &str) -> (b: bool)
    ensures
        b == is_h1(line@),
{
    let v = to_chars(line);
    let n = v.len();
    let mut i: usize = 0;
    while i < n && is_whitespace(v[i])
        invariant
            i <= n == v@.len(),
            v@ == line@,
            forall|k: int| 0 <= k < i ==> is_ws(#[trigger] v@[k]),
        decreases n - i,
    {
        i = i + 1;
    }
    proof {
        lemma_trim_start_at(v@, i as int);
    }
    let ghost t = v@.subrange(i as int, n as int);
    if i > 3 || i == n || v[i] != '#' {
        return false;
    }
    if !(i + 1 == n || v[i + 1] == ' ' || v[i + 1] == '\t') {
        assert(t[1] == v@[i + 1]);
        return false;
    }
    let mut k: usize = 0;
    while k < i
        invariant
            k <= i <= 3,
            i < n == v@.len(),
            v@ == line@,
            trim_start_seq(v@) == v@.subrange(i as int, n as int),
            forall|m: int| 0 <= m < k ==> #[trigger] v@[m] == ' ',
        decreases i - k,
    {
        if v[k] != ' ' {
            assert(trim_start_seq(line@).len() == n - i);
            assert(line@[k as int] != ' ');
            return false;
        }
        k = k + 1;
    }
    true
}

/// The content of a heading without its closing run of `#`.
fn drop_closing_str(t: &str) -> (r: String)
    ensures
        r@ == drop_closing(t@),
{
    let v = to_chars(t);
    let n = v.len();
    let mut j: usize = n;
    while j > 0 && v[j - 1] == '#'
        invariant
            j <= n == v@.len(),
            v@ == t@,
            forall|k: int| j <= k < n ==> #[trigger] v@[k] == '#',
        decreases j,
    {
        j = j - 1;
    }
    proof {
        lemma_trailing_hashes_at(v@, j as int);
    }
    if j == n {
        proof {
            assert(v@.subrange(0, n as int) =~= v@);
        }
        from_chars(&v, 0, n)
    } else if j == 0 {
        String::new()
    } else if v[j - 1] == ' ' || v[j - 1] == '\t' {
        let head = from_chars(&v, 0, j);
        proof {
            assert(head@ =~= t@.take(j as int));
        }
        trim(head.as_str())
    } else {
        proof {
            assert(v@.subrange(0, n as int) =~= v@);
        }
        from_chars(&v, 0, n)
    }
}

/// The text of a level-one heading line.
pub fn h1_title(line: &str) -> (r: String)
    ensures
        r@ == h1_text(line@),
{
    let t = trim_start(line);
    let s = strip_leading_char(t.as_str(), '#');
    let u = trim(s.as_str());
    drop_closing_str(u.as_str())
}

/// The skill read from the file at `path` with text `body`.
pub fn make_skill(path: String, body: String) -> (s: Skill)
    ensures
        s@ == (SkillView { id: stem_seq(path@), title: skill_title(body@, path@), body: body@, path: path@ }),
{
    let stem = match path_file_stem(path.as_str()) {
        Some(s) => s,
        None => String::new(),
    };
    let lines = split_lines(body.as_str());
    let ghost ls = lines_seq(body@);
    let mut i: usize = 0;
    let mut title: Option<String> = None;
    assert(ls.skip(0) =~= ls);
    while i < lines.len()
        invariant_except_break
            title is None,
            first_h1(ls) == first_h1(ls.skip(i as int)),
        invariant
            i <= lines@.len(),
            views(lines@) == ls,
        ensures
            match title {
                Some(t) => first_h1(ls) matches Some(l) && t@ == h1_text(l),
                None => first_h1(ls) is None,
            },
        decreases lines.len() - i,
    {
        assert(ls.skip(i as int)[0] == lines@[i as int]@);
        if is_h1_line(lines[i].as_str()) {
            title = Some(h1_title(lines[i].as_str()));
            break;
        }
        assert(ls.skip(i as int).drop_first() =~= ls.skip(i + 1));
        i = i + 1;
    }

    let title = match title {
        Some(t) => t,
        None => stem.clone(),
    };
    Skill { id: stem, title, body, path }
}

proof fn lemma_first_h1_at(ls: Seq<Seq<char>>, k: int)
    requires
        0 <= k <= ls.len(),
        forall|j: int| 0 <= j < k ==> !is_h1(#[trigger] ls[j]),
        k < ls.len() ==> is_h1(ls[k]),
    ensures
        first_h1(ls) == (if k < ls.len() {
            Some(ls[k])
        } else {
            None
        }),
    decreases k,
{
    if k > 0 {
        let rest = ls.drop_first();
        assert(!is_h1(ls[0]));
        assert forall|j: int| 0 <= j < k - 1 implies !is_h1(#[trigger] rest[j]) by {
            assert(rest[j] == ls[j + 1]);
        }
        lemma_first_h1_at(rest, k - 1);
        if k < ls.len() {
            assert(rest[k - 1] == ls[k]);
        }
    }
}

/// Law: a skill is named by its earliest level-one heading. When line `k` of
/// the body is a level-one heading and no line before it is one, the title is
/// that line's heading text, whatever later lines hold; when no line is a
/// level-one heading, the title is the file's stem.
pub proof fn lemma_title_from_earliest_h1(body: Seq<char>, path: Seq<char>, k: int)
    ensures
        ({
            let ls = lines_seq(body);
            0 <= k < ls.len() && is_h1(ls[k]) && (forall|j: int| 0 <= j < k ==> !is_h1(#[trigger] ls[j]))
                ==> skill_title(body, path) == h1_text(ls[k])
        }),
        (forall|j: int| 0 <= j < lines_seq(body).len() ==> !is_h1(#[trigger] lines_seq(body)[j]))
            ==> skill_title(body, path) == stem_seq(path),
{
    let ls = lines_seq(body);
    if 0 <= k < ls.len() && is_h1(ls[k]) && (forall|j: int| 0 <= j < k ==> !is_h1(#[trigger] ls[j])) {
        lemma_first_h1_at(ls, k);
    }
    if forall|j: int| 0 <= j < ls.len() ==> !is_h1(#[trigger] ls[j]) {
        lemma_first_h1_at(ls, ls.len() as int);
    }
}

impl SortKey for Skill {
    open spec fn key_of(&self) -> Seq<Seq<char>> {
        seq![self.title@]
    }

    fn sort_key(&self) -> (k: Vec<String>) {
        let mut k: Vec<String> = Vec::new();
        k.push(self.title.clone());
        assert(views(k@) =~= seq![self.title@]);
        k
    }
}

/// Orders the skills by title; skills with the same title keep their order.
pub fn sort_skills(skills: &mut Vec<Skill>)
    ensures
        stably_sorted(old(skills)@, final(skills)@, false),
{
    stable_sort(skills, false);
}

} // verus!
