//! Open-file records and the file-tree node.  A path is held as a plain
//! string; the file name is its part after the last `'/'`, and the
//! extension is the part of the file name after its last `'.'`, present
//! only when that dot is not the name's first character.

use vstd::prelude::*;
use vstd::string::StrSliceExecFns;
use vstd::string::StringExecFns;

verus! {

/// One node of the project file tree.
#[derive(Debug)]
pub struct FileNode {
    pub name: String,
    pub path: String,
    pub is_dir: bool,
    pub expanded: bool,
    pub children: Vec<FileNode>,
}

/// Compare two string slices character by character.
pub fn str_eq(a: &str, b: &str) -> (r: bool)
    ensures
        r == (a@ == b@),
{
    let n = a.unicode_len();
    let m = b.unicode_len();
    if n != m {
        proof {
            assert(a@ != b@);
        }
        return false;
    }
    let mut i: usize = 0;
    while i < n
        invariant
            0 <= i <= n,
            n == a@.len(),
            n == b@.len(),
            forall|k: int| 0 <= k < i ==> a@[k] == b@[k],
        decreases n - i,
    {
        if a.get_char(i) != b.get_char(i) {
            return false;
        }
        i = i + 1;
    }
    proof {
        assert(a@ =~= b@);
    }
    true
}

/// The longest suffix of `p` that holds no `'/'`: the file name of the
/// path.
pub open spec fn file_name_spec(p: Seq<char>) -> Seq<char>
    decreases p.len(),
{
    if p.len() == 0 {
        p
    } else if p[p.len() - 1] == '/' {
        Seq::empty()
    } else {
        file_name_spec(p.drop_last()).push(p[p.len() - 1])
    }
}

proof fn lemma_file_name_at(p: Seq<char>, k: int)
    requires
        0 <= k <= p.len(),
        forall|i: int| k <= i < p.len() ==> p[i] != '/',
        k > 0 ==> p[k - 1] == '/',
    ensures
        file_name_spec(p) == p.subrange(k, p.len() as int),
    decreases p.len(),
{
    if p.len() == 0 {
        assert(p.subrange(0, 0) =~= p);
    } else if k == p.len() {
        assert(p[p.len() - 1] == '/');
        assert(p.subrange(k, p.len() as int) =~= Seq::<char>::empty());
    } else {
        assert(p[p.len() - 1] != '/');
        lemma_file_name_at(p.drop_last(), k);
        assert(p.drop_last().subrange(k, p.len() - 1).push(p[p.len() - 1]) =~= p.subrange(
            k,
            p.len() as int,
        ));
    }
}

/// The index of the last `'.'` of `name`; `-1` when there is none.
pub open spec fn last_dot(name: Seq<char>) -> int
    decreases name.len(),
{
    if name.len() == 0 {
        -1
    } else if name[name.len() - 1] == '.' {
        name.len() - 1
    } else {
        last_dot(name.drop_last())
    }
}

proof fn lemma_last_dot_at(name: Seq<char>, k: int)
    requires
        -1 <= k < name.len(),
        forall|i: int| k < i < name.len() ==> name[i] != '.',
        k >= 0 ==> name[k] == '.',
    ensures
        last_dot(name) == k,
    decreases name.len(),
{
    if name.len() > 0 && name[name.len() - 1] != '.' {
        lemma_last_dot_at(name.drop_last(), k);
    }
}

/// The extension of a file name: what follows its last `'.'`, present
/// only when that dot exists and is not the first character.
pub open spec fn extension_spec(name: Seq<char>) -> Option<Seq<char>> {
    if last_dot(name) > 0 {
        Some(name.subrange(last_dot(name) + 1, name.len() as int))
    } else {
        None
    }
}

/// The file name of `p`, as an executable scan from the end.
pub fn file_name_of(p: &str) -> (r: &str)
    ensures
        r@ == file_name_spec(p@),
{
    let n = p.unicode_len();
    let mut k: usize = n;
    while k > 0 && p.get_char(k - 1) != '/'
        invariant
            0 <= k <= n,
            n == p@.len(),
            forall|i: int| k <= i < n ==> p@[i] != '/',
        decreases k,
    {
        k = k - 1;
    }
    proof {
        lemma_file_name_at(p@, k as int);
    }
    p.substring_char(k, n)
}

/// The extension of the file name `name`, if any.
fn extension_of(name: &str) -> (r: Option<&str>)
    ensures
        match r {
            Some(e) => extension_spec(name@) == Some(e@),
            None => extension_spec(name@) is None,
        },
{
    let n = name.unicode_len();
    let mut k: usize = n;
    while k > 0 && name.get_char(k - 1) != '.'
        invariant
            0 <= k <= n,
            n == name@.len(),
            forall|i: int| k <= i < n ==> name@[i] != '.',
        decreases k,
    {
        k = k - 1;
    }
    proof {
        lemma_last_dot_at(name@, k as int - 1);
    }
    if k > 1 {
        Some(name.substring_char(k, n))
    } else {
        None
    }
}

/// A file open in an editor pane: its path, its full text, and whether
/// it holds unsaved changes.
#[derive(Debug, Clone)]
pub struct OpenFile {
    pub path: String,
    pub content: String,
    pub modified: bool,
}

/// The tab title of an open file: its file name, `untitled` when the
/// path has none, with a bullet prefix when the file holds unsaved
/// changes.
pub open spec fn title_spec(f: OpenFile) -> Seq<char> {
    let name = if file_name_spec(f.path@).len() == 0 {
        "untitled"@
    } else {
        file_name_spec(f.path@)
    };
    if f.modified {
        "● "@ + name
    } else {
        name
    }
}

impl OpenFile {
    /// A freshly opened, unmodified file.
    pub fn new(path: String, content: String) -> (r: OpenFile)
        ensures
            r.path@ == path@,
            r.content@ == content@,
            !r.modified,
    {
        OpenFile { path, content, modified: false }
    }

    /// The tab title: the file name, marked when modified.
    pub fn title(&self) -> (r: String)
        ensures
            r@ == title_spec(*self),
    {
        let name = file_name_of(self.path.as_str());
        let shown: &str = if name.is_empty() {
            "untitled"
        } else {
            name
        };
        if self.modified {
            let mut t = String::new();
            t.append("● ");
            t.append(shown);
            proof {
                assert(t@ =~= "● "@ + shown@);
            }
            t
        } else {
            shown.to_owned()
        }
    }

    /// Whether the file's extension marks it as Markdown.
    pub fn is_markdown(&self) -> (r: bool)
        ensures
            r == (extension_spec(file_name_spec(self.path@)) == Some("md"@) || extension_spec(
                file_name_spec(self.path@),
            ) == Some("markdown"@)),
    {
        let name = file_name_of(self.path.as_str());
        match extension_of(name) {
            Some(e) => {
                let r = str_eq(e, "md") || str_eq(e, "markdown");
                r
            },
            None => false,
        }
    }

    /// Whether the file's extension marks it as JSON.
    pub fn is_json(&self) -> (r: bool)
        ensures
            r == (extension_spec(file_name_spec(self.path@)) == Some("json"@)),
    {
        let name = file_name_of(self.path.as_str());
        match extension_of(name) {
            Some(e) => str_eq(e, "json"),
            None => false,
        }
    }
}

} // verus!
