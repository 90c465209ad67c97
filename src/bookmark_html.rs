//! The Netscape bookmark file format, as read by a bookmark import.
//!
//! The file is read line by line. A trimmed line that opens with `<DT><H3`
//! names a folder, one that opens with `<DT><A` and holds an `HREF="..."`
//! attribute is a link, and `</DL><p>` ends the current folder. The tags may be
//! written in lower case too. Reading the file yields these steps in order; the
//! importer replays them, filing each link under the folder opened last and not
//! yet ended.

use vstd::prelude::*;
use vstd::string::StrSliceExecFns;

verus! {

/// The lines of a text, as `str::lines` splits it.
pub uninterp spec fn lines_of(text: Seq<char>) -> Seq<Seq<char>>;

/// A text without its leading and trailing whitespace, as `str::trim` gives it.
pub uninterp spec fn trimmed_of(text: Seq<char>) -> Seq<char>;

/// Relies on `str::lines`: the lines of `text`, split at `\n` with a trailing
/// `\r` removed; they depend on the text alone.
#[verifier::external_body]
fn text_lines(text: &str) -> (r: Vec<String>)
    ensures
        r@.map_values(|l: String| l@) == lines_of(text@),
{
    text.lines().map(String::from).collect()
}

/// Relies on `str::trim`: `text` without leading and trailing whitespace, a
/// function of the text alone.
#[verifier::external_body]
fn trim_text(text: &str) -> (r: &str)
    ensures
        r@ == trimmed_of(text@),
{
    text.trim()
}

/// One step of an import.
#[derive(Debug, Clone, PartialEq, Eq)]
pub enum ImportStep {
    /// A folder header: the folder that following links are filed under.
    Folder(String),
    /// A link with its address and title.
    Link { url: String, title: String },
    /// The end of the current folder.
    EndFolder,
}

/// What an import step holds.
pub enum StepView {
    Folder(Seq<char>),
    Link(Seq<char>, Seq<char>),
    EndFolder,
}

impl ImportStep {
    /// The contents of the step.
    pub open spec fn view_step(&self) -> StepView {
        match self {
            ImportStep::Folder(name) => StepView::Folder(name@),
            ImportStep::Link { url, title } => StepView::Link(url@, title@),
            ImportStep::EndFolder => StepView::EndFolder,
        }
    }
}

/// The contents of a sequence of steps.
pub open spec fn view_steps(steps: Seq<ImportStep>) -> Seq<StepView> {
    steps.map_values(|s: ImportStep| s.view_step())
}

/// The first position at or after `from` that holds `c`.
pub open spec fn first_char_from(t: Seq<char>, c: char, from: int) -> Option<int>
    decreases t.len() - from,
{
    if from < 0 || from >= t.len() {
        None
    } else if t[from] == c {
        Some(from)
    } else {
        first_char_from(t, c, from + 1)
    }
}

/// `p` occurs in `t` at position `i`.
pub open spec fn occurs_at(t: Seq<char>, p: Seq<char>, i: int) -> bool {
    0 <= i && i + p.len() <= t.len() && t.subrange(i, i + p.len()) == p
}

/// The first position at or after `from` where `p` occurs in `t`.
pub open spec fn first_occurrence_from(t: Seq<char>, p: Seq<char>, from: int) -> Option<int>
    decreases t.len() - from,
{
    if from < 0 || from >= t.len() {
        None
    } else if occurs_at(t, p, from) {
        Some(from)
    } else {
        first_occurrence_from(t, p, from + 1)
    }
}

/// The text between the first `>` and the next `<` after it.
pub open spec fn tag_text(t: Seq<char>) -> Option<Seq<char>> {
    match first_char_from(t, '>', 0) {
        Some(s) => match first_char_from(t, '<', s + 1) {
            Some(e) => Some(t.subrange(s + 1, e)),
            None => None,
        },
        None => None,
    }
}

/// The folder a trimmed line names, if it is a folder header.
pub open spec fn folder_of(t: Seq<char>) -> Option<Seq<char>> {
    if occurs_at(t, "<DT><H3"@, 0) || occurs_at(t, "<dt><h3"@, 0) {
        tag_text(t)
    } else {
        None
    }
}

/// The attribute that introduces a link's address on a trimmed line.
pub open spec fn href_key(t: Seq<char>) -> Seq<char> {
    if first_occurrence_from(t, "HREF=\""@, 0) is Some {
        "HREF=\""@
    } else {
        "href=\""@
    }
}

/// The address and title of the link on a trimmed line, if it is a link.
pub open spec fn link_of(t: Seq<char>) -> Option<(Seq<char>, Seq<char>)> {
    if (occurs_at(t, "<DT><A"@, 0) || occurs_at(t, "<dt><a"@, 0)) && first_occurrence_from(
        t,
        "HREF="@,
        0,
    ) is Some {
        match first_occurrence_from(t, href_key(t), 0) {
            Some(h) => {
                let start = h + 6;
                match first_char_from(t, '"', start) {
                    Some(end) => match tag_text(t) {
                        Some(title) => Some((t.subrange(start, end), title)),
                        None => None,
                    },
                    None => None,
                }
            },
            None => None,
        }
    } else {
        None
    }
}

/// The trimmed line ends the current folder.
pub open spec fn ends_folder(t: Seq<char>) -> bool {
    t == "</DL><p>"@ || t == "</dl><p>"@
}

/// The steps a trimmed line gives: a folder, then a link, then an end of
/// folder, each when the line is one.
pub open spec fn steps_of_line(t: Seq<char>) -> Seq<StepView> {
    let f = match folder_of(t) {
        Some(name) => seq![StepView::Folder(name)],
        None => Seq::empty(),
    };
    let l = match link_of(t) {
        Some(link) => seq![StepView::Link(link.0, link.1)],
        None => Seq::empty(),
    };
    let e = if ends_folder(t) {
        seq![StepView::EndFolder]
    } else {
        Seq::empty()
    };
    f + l + e
}

/// The steps of a sequence of lines, each line trimmed first.
pub open spec fn steps_of_lines(lines: Seq<Seq<char>>) -> Seq<StepView>
    decreases lines.len(),
{
    if lines.len() == 0 {
        Seq::empty()
    } else {
        steps_of_lines(lines.drop_last()) + steps_of_line(trimmed_of(lines.last()))
    }
}

/// The first position at or after `from` in `t` that holds `c`.
fn find_char_from(t: &str, len: usize, c: char, from: usize) -> (r: Option<usize>)
    requires
        len == t@.len(),
    ensures
        match r {
            Some(i) => first_char_from(t@, c, from as int) == Some(i as int),
            None => first_char_from(t@, c, from as int) is None,
        },
{
    let mut i = from;
    while i < len
        invariant
            len == t@.len(),
            from <= i,
            first_char_from(t@, c, from as int) == first_char_from(t@, c, i as int),
        decreases len - i,
    {
        if t.get_char(i) == c {
            return Some(i);
        }
        i = i + 1;
    }
    None
}

/// Whether `p` occurs in `t` at position `i`.
fn occurs_at_exec(t: &str, len: usize, p: &str, plen: usize, i: usize) -> (r: bool)
    requires
        len == t@.len(),
        plen == p@.len(),
    ensures
        r == occurs_at(t@, p@, i as int),
{
    if i > len || plen > len - i {
        return false;
    }
    let mut k: usize = 0;
    while k < plen
        invariant
            len == t@.len(),
            plen == p@.len(),
            i + plen <= len,
            0 <= k <= plen,
            forall|m: int| 0 <= m < k ==> t@[i + m] == p@[m],
        decreases plen - k,
    {
        if t.get_char(i + k) != p.get_char(k) {
            proof {
                assert(t@.subrange(i as int, i + plen)[k as int] != p@[k as int]);
            }
            return false;
        }
        k = k + 1;
    }
    assert(t@.subrange(i as int, i + plen) =~= p@);
    true
}

/// The first position at or after `from` where `p` occurs in `t`.
fn find_from(t: &str, len: usize, p: &str, from: usize) -> (r: Option<usize>)
    requires
        len == t@.len(),
    ensures
        match r {
            Some(i) => first_occurrence_from(t@, p@, from as int) == Some(i as int),
            None => first_occurrence_from(t@, p@, from as int) is None,
        },
{
    let plen = p.unicode_len();
    let mut i = from;
    while i < len
        invariant
            len == t@.len(),
            plen == p@.len(),
            from <= i,
            first_occurrence_from(t@, p@, from as int) == first_occurrence_from(t@, p@, i as int),
        decreases len - i,
    {
        if occurs_at_exec(t, len, p, plen, i) {
            return Some(i);
        }
        i = i + 1;
    }
    None
}

/// The text between the first `>` and the next `<` after it.
fn tag_text_exec(t: &str, len: usize) -> (r: Option<String>)
    requires
        len == t@.len(),
    ensures
        match r {
            Some(s) => tag_text(t@) == Some(s@),
            None => tag_text(t@) is None,
        },
{
    match find_char_from(t, len, '>', 0) {
        Some(s) => {
            proof {
                lemma_first_char_found(t@, '>', 0);
            }
            match find_char_from(t, len, '<', s + 1) {
                Some(e) => {
                    proof {
                        lemma_first_char_found(t@, '<', s + 1);
                    }
                    Some(t.substring_char(s + 1, e).to_owned())
                },
                None => None,
            }
        },
        None => None,
    }
}

proof fn lemma_first_char_found(t: Seq<char>, c: char, from: int)
    ensures
        match first_char_from(t, c, from) {
            Some(i) => from <= i < t.len() && t[i] == c,
            None => true,
        },
    decreases t.len() - from,
{
    if 0 <= from < t.len() && t[from] != c {
        lemma_first_char_found(t, c, from + 1);
    }
}

proof fn lemma_first_occurrence_found(t: Seq<char>, p: Seq<char>, from: int)
    ensures
        match first_occurrence_from(t, p, from) {
            Some(i) => from <= i < t.len() && occurs_at(t, p, i),
            None => true,
        },
    decreases t.len() - from,
{
    if 0 <= from < t.len() && !occurs_at(t, p, from) {
        lemma_first_occurrence_found(t, p, from + 1);
    }
}

/// The address and title of the link on a trimmed line.
fn link_exec(t: &str, len: usize) -> (r: Option<(String, String)>)
    requires
        len == t@.len(),
    ensures
        match r {
            Some(link) => link_of(t@) == Some((link.0@, link.1@)),
            None => link_of(t@) is None,
        },
{
    proof {
        reveal_strlit("<DT><A");
        reveal_strlit("<dt><a");
        reveal_strlit("HREF=\"");
        reveal_strlit("href=\"");
    }
    let is_link = occurs_at_exec(t, len, "<DT><A", 6, 0) || occurs_at_exec(t, len, "<dt><a", 6, 0);
    if !is_link || find_from(t, len, "HREF=", 0).is_none() {
        return None;
    }
    let key = if find_from(t, len, "HREF=\"", 0).is_some() {
        "HREF=\""
    } else {
        "href=\""
    };
    assert(key@ == href_key(t@));
    match find_from(t, len, key, 0) {
        Some(h) => {
            proof {
                lemma_first_occurrence_found(t@, key@, 0);
            }
            let start = h + 6;
            match find_char_from(t, len, '"', start) {
                Some(end) => {
                    proof {
                        lemma_first_char_found(t@, '"', start as int);
                    }
                    match tag_text_exec(t, len) {
                        Some(title) => Some((t.substring_char(start, end).to_owned(), title)),
                        None => None,
                    }
                },
                None => None,
            }
        },
        None => None,
    }
}

/// Whether two texts are equal, character by character.
fn same_chars(a: &str, b: &str) -> (r: bool)
    ensures
        r == (a@ == b@),
{
    let n = a.unicode_len();
    if n != b.unicode_len() {
        return false;
    }
    let mut i: usize = 0;
    while i < n
        invariant
            n == a@.len(),
            n == b@.len(),
            0 <= i <= n,
            forall|k: int| 0 <= k < i ==> a@[k] == b@[k],
        decreases n - i,
    {
        if a.get_char(i) != b.get_char(i) {
            return false;
        }
        i = i + 1;
    }
    assert(a@ =~= b@);
    true
}

/// The steps an already trimmed line gives.
pub fn parse_bookmark_line(trimmed: &str) -> (r: Vec<ImportStep>)
    ensures
        view_steps(r@) == steps_of_line(trimmed@),
{
    let t = trimmed;
    let len = t.unicode_len();
    proof {
        reveal_strlit("<DT><H3");
        reveal_strlit("<dt><h3");
        reveal_strlit("<DT><A");
        reveal_strlit("<dt><a");
        reveal_strlit("HREF=\"");
        reveal_strlit("href=\"");
    }
    let mut steps: Vec<ImportStep> = Vec::new();
    if occurs_at_exec(t, len, "<DT><H3", 7, 0) || occurs_at_exec(t, len, "<dt><h3", 7, 0) {
        if let Some(name) = tag_text_exec(t, len) {
            steps.push(ImportStep::Folder(name));
        }
    }
    let ghost after_folder = steps@;
    if let Some(link) = link_exec(t, len) {
        steps.push(ImportStep::Link { url: link.0, title: link.1 });
    }
    let ghost after_link = steps@;
    if same_chars(t, "</DL><p>") || same_chars(t, "</dl><p>") {
        steps.push(ImportStep::EndFolder);
    }
    proof {
        let f = match folder_of(t@) {
            Some(name) => seq![StepView::Folder(name)],
            None => Seq::<StepView>::empty(),
        };
        let l = match link_of(t@) {
            Some(link) => seq![StepView::Link(link.0, link.1)],
            None => Seq::<StepView>::empty(),
        };
        let e = if ends_folder(t@) {
            seq![StepView::EndFolder]
        } else {
            Seq::<StepView>::empty()
        };
        assert(view_steps(after_folder) =~= f);
        assert(view_steps(after_link) =~= f + l);
        assert(view_steps(steps@) =~= f + l + e);
    }
    steps
}

/// Reads a bookmark file into the steps of its import, line by line.
pub fn parse_bookmarks_html(data: &str) -> (r: Vec<ImportStep>)
    ensures
        view_steps(r@) == steps_of_lines(lines_of(data@)),
{
    let lines = text_lines(data);
    let ghost ls = lines_of(data@);
    let mut steps: Vec<ImportStep> = Vec::new();
    let mut i: usize = 0;
    assert(ls.take(0) =~= Seq::<Seq<char>>::empty());
    while i < lines.len()
        invariant
            lines@.map_values(|l: String| l@) == ls,
            0 <= i <= lines@.len(),
            view_steps(steps@) == steps_of_lines(ls.take(i as int)),
        decreases lines@.len() - i,
    {
        let t = trim_text(lines[i].as_str());
        let mut line_steps = parse_bookmark_line(t);
        let ghost before = steps@;
        let ghost added = line_steps@;
        steps.append(&mut line_steps);
        proof {
            assert(ls.take(i + 1).drop_last() =~= ls.take(i as int));
            assert(ls[i as int] == lines@[i as int]@);
            assert(view_steps(steps@) =~= view_steps(before) + view_steps(added));
        }
        i = i + 1;
    }
    assert(ls.take(ls.len() as int) =~= ls);
    steps
}

} // verus!
