use vstd::prelude::*;

use crate::error::Error;
use crate::note::lemma_filter_push;
use crate::note::Note;

verus! {

/// What is left of `s` without its leading slashes.
pub open spec fn trim_start(s: Seq<char>) -> Seq<char>
    decreases s.len(),
{
    if s.len() > 0 && s[0] == '/' {
        trim_start(s.skip(1))
    } else {
        s
    }
}

/// What is left of `s` without its trailing slashes.
pub open spec fn trim_end(s: Seq<char>) -> Seq<char>
    decreases s.len(),
{
    if s.len() > 0 && s.last() == '/' {
        trim_end(s.drop_last())
    } else {
        s
    }
}

/// `s` without the slashes at either end.
pub open spec fn trimmed(s: Seq<char>) -> Seq<char> {
    trim_end(trim_start(s))
}

/// The position of the last slash in `s`, or -1 where it has none.
pub open spec fn last_slash(s: Seq<char>) -> int
    decreases s.len(),
{
    if s.len() == 0 {
        -1
    } else if s.last() == '/' {
        s.len() - 1
    } else {
        last_slash(s.drop_last())
    }
}

/// The title that a trimmed path names: what follows its last slash.
pub open spec fn title_of(t: Seq<char>) -> Seq<char> {
    t.skip(last_slash(t) + 1)
}

/// The parent that a trimmed path names: what precedes its last slash.
pub open spec fn parent_of(t: Seq<char>) -> Option<Seq<char>> {
    if last_slash(t) < 0 {
        None
    } else {
        Some(t.take(last_slash(t)))
    }
}

/// A parent and a title put together again.
pub open spec fn joined(parent: Option<Seq<char>>, title: Seq<char>) -> Seq<char> {
    match parent {
        Some(p) => p + seq!['/'] + title,
        None => title,
    }
}

/// `s` neither starts nor ends with a slash.
pub open spec fn is_trimmed(s: Seq<char>) -> bool {
    s.len() > 0 ==> s[0] != '/' && s.last() != '/'
}

/// The extension of a note's content file.
pub open spec fn extension() -> Seq<char> {
    seq!['.', 'm', 'd']
}

/// `path` below the directory `root`.
pub open spec fn under(root: Seq<char>, path: Seq<char>) -> Seq<char> {
    root + seq!['/'] + path
}

/// Where the last slash of `s` is, and that nothing follows it but the title.
pub proof fn lemma_last_slash(s: Seq<char>)
    ensures
        -1 <= last_slash(s) < s.len(),
        last_slash(s) >= 0 ==> s[last_slash(s)] == '/',
        forall|i: int| last_slash(s) < i < s.len() ==> s[i] != '/',
    decreases s.len(),
{
    if s.len() > 0 && s.last() != '/' {
        let front = s.drop_last();
        lemma_last_slash(front);
        assert forall|i: int| last_slash(s) < i < s.len() implies s[i] != '/' by {
            if i < front.len() {
                assert(front[i] == s[i]);
            }
        }
    }
}

/// Trimming leaves a path that neither starts nor ends with a slash.
pub proof fn lemma_trimmed_is_trimmed(s: Seq<char>)
    ensures
        is_trimmed(trimmed(s)),
        is_trimmed(s) ==> trimmed(s) == s,
{
    lemma_trim_start(s);
    lemma_trim_end(trim_start(s));
}

proof fn lemma_trim_start(s: Seq<char>)
    ensures
        trim_start(s).len() > 0 ==> trim_start(s)[0] != '/',
        s.len() > 0 && s[0] != '/' ==> trim_start(s) == s,
        s.len() == 0 ==> trim_start(s) == s,
    decreases s.len(),
{
    if s.len() > 0 && s[0] == '/' {
        lemma_trim_start(s.skip(1));
    }
}

proof fn lemma_trim_end(s: Seq<char>)
    ensures
        trim_end(s).len() > 0 ==> trim_end(s).last() != '/' && trim_end(s)[0] == s[0],
        s.len() > 0 && s.last() != '/' ==> trim_end(s) == s,
        s.len() == 0 ==> trim_end(s) == s,
    decreases s.len(),
{
    if s.len() > 0 && s.last() == '/' {
        lemma_trim_end(s.drop_last());
    }
}

/// A path that does not end with a slash has a title, and the title holds
/// no slash.
pub proof fn lemma_title(t: Seq<char>)
    requires
        t.len() > 0,
        t.last() != '/',
    ensures
        title_of(t).len() > 0,
        forall|i: int| 0 <= i < title_of(t).len() ==> title_of(t)[i] != '/',
{
    lemma_last_slash(t);
}

/// Parent and title, joined by a slash, give the path back.
pub proof fn lemma_join_parts(t: Seq<char>)
    ensures
        joined(parent_of(t), title_of(t)) == t,
{
    lemma_last_slash(t);
    let k = last_slash(t);
    if k >= 0 {
        assert(t.take(k) + seq!['/'] + t.skip(k + 1) =~= t);
    } else {
        assert(t.skip(0) == t);
    }
}

/// Taken apart, a joined path gives the parent and the title back, as long
/// as the title holds no slash.
pub proof fn lemma_parts_of_join(parent: Option<Seq<char>>, title: Seq<char>)
    requires
        forall|i: int| 0 <= i < title.len() ==> title[i] != '/',
    ensures
        title_of(joined(parent, title)) == title,
        parent_of(joined(parent, title)) == parent,
    decreases title.len(),
{
    let t = joined(parent, title);
    if title.len() > 0 {
        assert(t.last() == title.last());
        let shorter = title.drop_last();
        let front = t.drop_last();
        lemma_parts_of_join(parent, shorter);
        assert(joined(parent, shorter) =~= front);
        lemma_last_slash(front);
        let k = last_slash(front);
        assert(last_slash(t) == k);
        assert(t.skip(k + 1) =~= front.skip(k + 1).push(title.last()));
        assert(title =~= shorter.push(title.last()));
        if k >= 0 {
            assert(t.take(k) =~= front.take(k));
        }
    } else {
        match parent {
            Some(p) => {
                assert(t =~= p.push('/'));
                assert(last_slash(t) == p.len());
                assert(t.skip(p.len() as int + 1) =~= title);
                assert(t.take(p.len() as int) =~= p);
            },
            None => {
                assert(t.skip(0) =~= t);
            },
        }
    }
}

/// A path inside the root directory of the notes: the title of a note and,
/// where the note lies in a directory, the path of that directory.
#[derive(Debug)]
pub struct NotePath {
    /// The last segment: the name of the note.
    pub title: String,
    /// The segments before the title, joined by slashes.
    pub parent: Option<String>,
}

/// The characters of `s`, one by one.
fn chars_of(s: &str) -> (v: Vec<char>)
    ensures
        v@ == s@,
{
    let mut v: Vec<char> = Vec::new();
    for c in it: s.chars()
        invariant
            v@ == s@.take(it.index() as int),
            it.seq() == s@,
    {
        v.push(c);
    }
    v
}

/// Stepping over one leading slash does not change what trimming leaves.
proof fn lemma_trim_start_step(s: Seq<char>, i: int)
    requires
        0 <= i < s.len(),
        s[i] == '/',
    ensures
        trim_start(s.skip(i)) == trim_start(s.skip(i + 1)),
{
    assert(s.skip(i).skip(1) == s.skip(i + 1));
}

/// Stepping over one trailing slash does not change what trimming leaves.
proof fn lemma_trim_end_step(s: Seq<char>, j: int)
    requires
        0 < j <= s.len(),
        s[j - 1] == '/',
    ensures
        trim_end(s.take(j)) == trim_end(s.take(j - 1)),
{
    assert(s.take(j).drop_last() == s.take(j - 1));
}

/// Stepping over a last character that is no slash does not move the last slash.
proof fn lemma_last_slash_step(s: Seq<char>, k: int)
    requires
        0 < k <= s.len(),
        s[k - 1] != '/',
    ensures
        last_slash(s.take(k)) == last_slash(s.take(k - 1)),
{
    assert(s.take(k).drop_last() == s.take(k - 1));
}

/// A note path as plain values.
pub struct PathView {
    pub title: Seq<char>,
    pub parent: Option<Seq<char>>,
}

impl PathView {
    /// The path relative to the root directory: parent, slash, title.
    pub open spec fn relative_path(self) -> Seq<char> {
        joined(self.parent, self.title)
    }

    /// The parent below `root`, where there is a parent.
    pub open spec fn absolute_parent(self, root: Seq<char>) -> Option<Seq<char>> {
        match self.parent {
            Some(p) => Some(under(root, p)),
            None => None,
        }
    }

    /// The path below `root`.
    pub open spec fn absolute_path(self, root: Seq<char>) -> Seq<char> {
        under(root, self.relative_path())
    }

    /// The place of the content file below `root`.
    pub open spec fn absolute_path_with_ext(self, root: Seq<char>) -> Seq<char> {
        self.absolute_path(root) + extension()
    }
}

impl View for NotePath {
    type V = PathView;

    open spec fn view(&self) -> PathView {
        PathView {
            title: self.title@,
            parent: match self.parent {
                Some(p) => Some(p@),
                None => None,
            },
        }
    }
}

/// The path that `input` is read as: nothing where only slashes or nothing
/// at all was given, else the last segment as the title and what precedes
/// its slash as the parent.
pub open spec fn parsed(input: Seq<char>) -> Option<PathView> {
    let t = trimmed(input);
    if t.len() == 0 {
        None
    } else {
        Some(PathView { title: title_of(t), parent: parent_of(t) })
    }
}

/// A path goes through parsing unchanged: of a text that is not empty and
/// neither starts nor ends with a slash, whatever slashes it has inside,
/// parent and title joined again are the text itself. It has a parent
/// exactly where it has a slash.
pub proof fn lemma_parse_round_trip(s: Seq<char>)
    requires
        s.len() > 0,
        s[0] != '/',
        s.last() != '/',
    ensures
        parsed(s) is Some,
        parsed(s)->0.relative_path() == s,
        parsed(s)->0.parent is Some <==> s.contains('/'),
        parsed(s)->0.title.len() > 0,
{
    lemma_trimmed_is_trimmed(s);
    lemma_join_parts(s);
    lemma_last_slash(s);
    lemma_title(s);
    if s.contains('/') {
        let i = choose|i: int| 0 <= i < s.len() && s[i] == '/';
        assert(last_slash(s) >= i);
    }
}

/// Parsing what a path was joined to gives the path back, as long as the
/// joined text neither starts nor ends with a slash and the title holds
/// none.
pub proof fn lemma_parse_joined(path: PathView)
    requires
        path.title.len() > 0,
        forall|i: int| 0 <= i < path.title.len() ==> path.title[i] != '/',
        path.parent matches Some(p) ==> p.len() > 0 && p[0] != '/',
    ensures
        parsed(path.relative_path()) == Some(path),
{
    let t = path.relative_path();
    assert(t.last() == path.title.last());
    match path.parent {
        Some(p) => {
            assert(t[0] == p[0]);
        },
        None => {},
    }
    lemma_trimmed_is_trimmed(t);
    lemma_parts_of_join(path.parent, path.title);
}

impl NotePath {
    /// Reads a path as the user wrote it. Slashes at either end are dropped;
    /// the last segment of what is left is the title, the rest the parent.
    /// Nothing left is an error.
    pub fn parse(input: &str) -> (r: Result<NotePath, Error>)
        ensures
            r is Ok <==> parsed(input@) is Some,
            r matches Ok(p) ==> Some(p@) == parsed(input@) && p@.relative_path() == trimmed(input@),
            r matches Err(e) ==> e == Error::EmptyPath,
    {
        let chars = chars_of(input);
        let n = chars.len();
        let ghost s = input@;
        let mut start: usize = 0;
        assert(s.skip(0) == s);
        while start < n && chars[start] == '/'
            invariant
                chars@ == s,
                n == s.len(),
                start <= n,
                trim_start(s) == trim_start(s.skip(start as int)),
            decreases n - start,
        {
            proof {
                lemma_trim_start_step(s, start as int);
            }
            start += 1;
        }
        let ghost rest = s.skip(start as int);
        assert(trim_start(s) == rest);
        let mut end: usize = n;
        assert(rest.take(n - start) == rest);
        while end > start && chars[end - 1] == '/'
            invariant
                chars@ == s,
                n == s.len(),
                start <= end <= n,
                rest == s.skip(start as int),
                trim_end(rest) == trim_end(rest.take(end - start)),
            decreases end,
        {
            proof {
                assert(rest[end - start - 1] == s[end - 1]);
                lemma_trim_end_step(rest, end - start);
            }
            end -= 1;
        }
        let ghost t = rest.take(end - start);
        assert(end > start ==> t.last() == s[end - 1]);
        assert(trimmed(s) == t);
        assert(t == s.subrange(start as int, end as int));
        if start == end {
            return Err(Error::EmptyPath);
        }
        let mut cut: usize = end;
        assert(t.take(end - start) == t);
        while cut > start && chars[cut - 1] != '/'
            invariant
                chars@ == s,
                n == s.len(),
                start <= cut <= end <= n,
                t == s.subrange(start as int, end as int),
                last_slash(t) == last_slash(t.take(cut - start)),
            decreases cut,
        {
            proof {
                assert(t[cut - start - 1] == s[cut - 1]);
                lemma_last_slash_step(t, cut - start);
            }
            cut -= 1;
        }
        proof {
            lemma_join_parts(t);
            if cut > start {
                assert(t.take(cut - start).last() == s[cut - 1]);
            }
            assert(last_slash(t) == cut - start - 1);
            assert(t.skip(cut - start) == s.subrange(cut as int, end as int));
        }
        let title = input.substring_char(cut, end).to_owned();
        let parent = if cut == start {
            None
        } else {
            proof {
                assert(t.take(cut - start - 1) == s.subrange(start as int, cut - 1));
            }
            Some(input.substring_char(start, cut - 1).to_owned())
        };
        Ok(NotePath { title, parent })
    }

    /// The path of an existing note, read from its relative path.
    pub fn from_note(note: &Note) -> (r: Result<NotePath, Error>)
        ensures
            r is Ok <==> parsed(note@.relative_path) is Some,
            r matches Ok(p) ==> Some(p@) == parsed(note@.relative_path) && p@.relative_path()
                == trimmed(note@.relative_path),
            r matches Err(e) ==> e == Error::EmptyPath,
    {
        NotePath::parse(note.relative_path.as_str())
    }

    /// Tells whether the note lies in a directory below the root.
    pub fn has_parent(&self) -> (r: bool)
        ensures
            r == self.parent is Some,
    {
        self.parent.is_some()
    }

    /// The title of the note.
    pub fn title(&self) -> (r: String)
        ensures
            r@ == self.title@,
    {
        self.title.clone()
    }

    /// The directory of the note, relative to the root.
    pub fn relative_parent(&self) -> (r: Option<String>)
        ensures
            r is Some == self.parent is Some,
            r matches Some(p) ==> self@.parent == Some(p@),
    {
        match &self.parent {
            Some(p) => Some(p.clone()),
            None => None,
        }
    }

    /// The directory of the note below `root`.
    pub fn absolute_parent(&self, root: &str) -> (r: Option<String>)
        ensures
            r is Some == self.parent is Some,
            r matches Some(p) ==> self@.absolute_parent(root@) == Some(p@),
    {
        match &self.parent {
            Some(p) => Some(join(root, p.as_str())),
            None => None,
        }
    }

    /// The path of the note, relative to the root and without extension.
    pub fn relative_path(&self) -> (r: String)
        ensures
            r@ == self@.relative_path(),
    {
        match &self.parent {
            Some(p) => join(p.as_str(), self.title.as_str()),
            None => self.title.clone(),
        }
    }

    /// The path of the content file, relative to the root.
    pub fn relative_path_with_ext(&self) -> (r: String)
        ensures
            r@ == self@.relative_path() + extension(),
    {
        with_ext(self.relative_path())
    }

    /// The path of the note below `root`, without extension.
    pub fn absolute_path(&self, root: &str) -> (r: String)
        ensures
            r@ == self@.absolute_path(root@),
    {
        let relative = self.relative_path();
        join(root, relative.as_str())
    }

    /// The path of the content file below `root`.
    pub fn absolute_path_with_ext(&self, root: &str) -> (r: String)
        ensures
            r@ == self@.absolute_path_with_ext(root@),
    {
        with_ext(self.absolute_path(root))
    }
}

/// The test for a character that is no slash.
pub open spec fn no_slash() -> spec_fn(char) -> bool {
    |c: char| c != '/'
}

/// `s` without its slashes.
pub open spec fn without_slashes(s: Seq<char>) -> Seq<char> {
    s.filter(no_slash())
}

/// `s` without its slashes.
pub fn strip_slashes(s: &str) -> (r: String)
    ensures
        r@ == without_slashes(s@),
{
    let chars = chars_of(s);
    let mut r = String::new();
    let mut i: usize = 0;
    assert(s@.take(0).filter(no_slash()) =~= Seq::empty()) by {
        s@.take(0).lemma_filter_len(no_slash());
    }
    while i < chars.len()
        invariant
            i <= chars.len(),
            chars@ == s@,
            r@ == s@.take(i as int).filter(no_slash()),
        decreases chars.len() - i,
    {
        proof {
            assert(s@.take(i + 1) =~= s@.take(i as int).push(s@[i as int]));
            lemma_filter_push(s@.take(i as int), s@[i as int], no_slash());
        }
        if chars[i] != '/' {
            let piece = s.substring_char(i, i + 1);
            assert(piece@ =~= seq![s@[i as int]]);
            r.append(piece);
            assert(r@ =~= s@.take(i as int).filter(no_slash()).push(s@[i as int]));
        }
        i += 1;
    }
    assert(s@.take(chars.len() as int) =~= s@);
    r
}

/// `head`, a slash, `tail`.
pub(crate) fn join(head: &str, tail: &str) -> (r: String)
    ensures
        r@ == head@ + seq!['/'] + tail@,
{
    proof {
        reveal_strlit("/");
        assert("/"@ =~= seq!['/']);
    }
    let mut r = head.to_owned();
    r.append("/");
    r.append(tail);
    r
}

/// `path` with the extension of content files.
fn with_ext(path: String) -> (r: String)
    ensures
        r@ == path@ + extension(),
{
    proof {
        reveal_strlit(".md");
        assert(".md"@ =~= extension());
    }
    let mut r = path;
    r.append(".md");
    r
}

} // verus!
