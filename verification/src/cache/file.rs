//! The file-backed dedup store.
//!
//! The store is an in-memory set of identity keys mirrored by the list of
//! those keys in insertion order. It is loaded from a newline-separated
//! snapshot at construction (a missing snapshot is an empty store, not an
//! error) and written back by `persist`: first atomically, through a
//! temporary file in the snapshot's directory renamed over the target, and
//! if any stage of that fails, by rewriting the target in place.

use vstd::prelude::*;
use vstd::hash_set::StringHashSet;
use vstd::string::*;

use super::Cache;
use crate::Error;
use crate::Spoiler;
use crate::text::is_space;
use crate::text::spec_split_ws;
use crate::text::split_ws;
use crate::text::lemma_token_len_eq;
use crate::text::spec_token_len;

verus! {

broadcast use vstd::set::group_set_axioms;

/// Outcome of reading the snapshot: distinguishes a file that is not
/// there (an empty store) from one that cannot be read (a fatal error).
enum LoadError {
    Missing,
    Unreadable(String),
}

/// Relies on `tokio::fs::read_to_string`, driven to completion on a fresh
/// single-thread tokio runtime: returns the file's contents decoded as
/// UTF-8, `Missing` when no file exists at `path`, or the error's text.
#[verifier::external_body]
fn read_file_text(path: &String) -> Result<String, LoadError> {
    let rt = match tokio::runtime::Builder::new_current_thread().build() {
        Ok(rt) => rt,
        Err(e) => return Err(LoadError::Unreadable(format!("{e}"))),
    };
    match rt.block_on(tokio::fs::read_to_string(path.as_str())) {
        Ok(text) => Ok(text),
        Err(e) if e.kind() == std::io::ErrorKind::NotFound => Err(LoadError::Missing),
        Err(e) => Err(LoadError::Unreadable(format!("{e}"))),
    }
}

/// Relies on `tokio::fs::write`, driven to completion on a fresh
/// single-thread tokio runtime: creates or truncates the file at `path`
/// and writes `contents` to it.
#[verifier::external_body]
fn write_file_text(path: &String, contents: &String) -> Result<(), String> {
    let rt = match tokio::runtime::Builder::new_current_thread().build() {
        Ok(rt) => rt,
        Err(e) => return Err(format!("{e}")),
    };
    rt.block_on(tokio::fs::write(path.as_str(), contents.as_bytes())).map_err(
        |e| format!("{e}"),
    )
}

/// Relies on `tempfile::NamedTempFile::new_in`, `std::io::Write` on the
/// temporary file, and `NamedTempFile::persist` (a rename, atomic on the
/// usual filesystems): writes `contents` to a fresh temporary file in
/// `dir` and renames it over `path`, so that a reader does not observe
/// a half-written file.
#[verifier::external_body]
fn atomic_write_text(dir: &String, path: &String, contents: &String) -> Result<(), String> {
    let mut tmp = match tempfile::NamedTempFile::new_in(dir.as_str()) {
        Ok(tmp) => tmp,
        Err(e) => return Err(format!("create: {e}")),
    };
    if let Err(e) = std::io::Write::write_all(&mut tmp, contents.as_bytes()) {
        return Err(format!("write: {e}"));
    }
    if let Err(e) = std::io::Write::flush(&mut tmp) {
        return Err(format!("flush: {e}"));
    }
    match tmp.persist(path.as_str()) {
        Ok(_) => Ok(()),
        Err(e) => Err(format!("rename: {e}")),
    }
}

/// The snapshot text for a list of keys: each key followed by a newline.
pub open spec fn spec_render(keys: Seq<Seq<char>>) -> Seq<char>
    decreases keys.len(),
{
    if keys.len() == 0 {
        Seq::empty()
    } else {
        keys[0] + seq!['\n'] + spec_render(keys.drop_first())
    }
}

fn render_snapshot(keys: &Vec<String>) -> (r: String)
    ensures
        r@ == spec_render(keys.deep_view()),
{
    let ghost d = keys.deep_view();
    let mut out = String::new();
    let mut i: usize = 0;
    proof {
        assert(d.skip(0) =~= d);
    }
    while i < keys.len()
        invariant
            d == keys.deep_view(),
            i <= keys.len(),
            out@ + spec_render(d.skip(i as int)) == spec_render(d),
        decreases keys.len() - i,
    {
        proof {
            assert(d.skip(i as int)[0] == d[i as int]);
            assert(d.skip(i as int).drop_first() =~= d.skip(i as int + 1));
            reveal_strlit("\n");
            assert("\n"@ =~= seq!['\n']);
        }
        out.append(keys[i].as_str());
        out.append("\n");
        i = i + 1;
    }
    proof {
        assert(d.skip(keys.len() as int) =~= Seq::<Seq<char>>::empty());
    }
    out
}

/// An identity key as the snapshot format can carry it: nonempty, with no
/// whitespace. Identity keys are URLs, which never contain whitespace.
pub open spec fn wf_key(k: Seq<char>) -> bool {
    k.len() > 0 && forall|i: int| 0 <= i < k.len() ==> !is_space(#[trigger] k[i])
}

proof fn lemma_split_of_key_line(k: Seq<char>, rest: Seq<char>)
    requires
        wf_key(k),
    ensures
        spec_split_ws(k + seq!['\n'] + rest) == seq![k] + spec_split_ws(rest),
{
    let s = k + seq!['\n'] + rest;
    assert forall|j: int| 0 <= j < k.len() implies !is_space(s[j]) by {
        assert(s[j] == k[j]);
    }
    assert(s[k.len() as int] == '\n');
    lemma_token_len_eq(s, k.len() as int);
    assert(s.take(k.len() as int) =~= k);
    assert(s.skip(k.len() as int) =~= seq!['\n'] + rest);
    assert(!is_space(s[0]));
    let nl = seq!['\n'] + rest;
    assert(nl[0] == '\n');
    assert(nl.drop_first() =~= rest);
    assert(spec_split_ws(nl) == spec_split_ws(rest));
    assert(spec_split_ws(s) == seq![s.take(spec_token_len(s))] + spec_split_ws(
        s.skip(spec_token_len(s)),
    ));
}

/// Reload stability: tokenizing a rendered snapshot returns exactly the
/// keys that were written — in order, so in particular the same set of
/// keys. A store persisted and constructed again from the same snapshot
/// therefore knows the same keys.
pub proof fn lemma_snapshot_round_trip(keys: Seq<Seq<char>>)
    requires
        forall|i: int| 0 <= i < keys.len() ==> wf_key(#[trigger] keys[i]),
    ensures
        spec_split_ws(spec_render(keys)) == keys,
        spec_split_ws(spec_render(keys)).to_set() == keys.to_set(),
    decreases keys.len(),
{
    if keys.len() == 0 {
        assert(spec_render(keys) =~= Seq::<char>::empty());
        assert(spec_split_ws(spec_render(keys)) =~= keys);
    } else {
        lemma_snapshot_round_trip(keys.drop_first());
        lemma_split_of_key_line(keys[0], spec_render(keys.drop_first()));
        assert(seq![keys[0]] + keys.drop_first() =~= keys);
    }
}

proof fn lemma_take_step_to_set(d: Seq<Seq<char>>, i: int)
    requires
        0 <= i < d.len(),
    ensures
        d.take(i + 1).to_set() == d.take(i).to_set().insert(d[i]),
{
    let a = d.take(i + 1);
    let b = d.take(i);
    assert forall|x: Seq<char>| a.to_set().contains(x) implies b.to_set().insert(
        d[i],
    ).contains(x) by {
        let j = choose|j: int| 0 <= j < a.len() && a[j] == x;
        if j < i {
            assert(b[j] == x);
            assert(b.contains(x));
        } else {
            assert(x == d[i]);
        }
    }
    assert forall|x: Seq<char>| b.to_set().insert(d[i]).contains(x) implies a.to_set().contains(
        x,
    ) by {
        if x == d[i] {
            assert(a[i] == x);
        } else {
            let j = choose|j: int| 0 <= j < b.len() && b[j] == x;
            assert(a[j] == x);
        }
        assert(a.contains(x));
    }
    assert(a.to_set() =~= b.to_set().insert(d[i]));
}

proof fn lemma_push_to_set(d: Seq<Seq<char>>, x: Seq<char>)
    ensures
        d.push(x).to_set() == d.to_set().insert(x),
{
    lemma_take_step_to_set(d.push(x), d.len() as int);
    assert(d.push(x).take(d.len() as int + 1) =~= d.push(x));
    assert(d.push(x).take(d.len() as int) =~= d);
}

/// The file-backed store: the set of keys already seen, the same keys in
/// insertion order (what the snapshot will contain), and the snapshot path.
pub struct File {
    set: StringHashSet,
    keys: Vec<String>,
    path: String,
}

impl File {
    /// The keys of the store in insertion order.
    pub closed spec fn spec_keys(&self) -> Seq<Seq<char>> {
        self.keys.deep_view()
    }

    /// Builds the store a given snapshot text denotes: the set of its
    /// whitespace-delimited tokens; no text (a missing snapshot) is the
    /// empty store.
    pub fn from_snapshot_text(path: String, text: Option<&str>) -> (r: File)
        ensures
            r.known() == match text {
                Some(t) => spec_split_ws(t@).to_set(),
                None => Set::<Seq<char>>::empty(),
            },
            r.snapshot_path() == path@,
            r.wf(),
            r.remembers(),
            !r.persists_trivially(),
    {
        let mut set = StringHashSet::new();
        let mut keys: Vec<String> = Vec::new();
        proof {
            assert(keys.deep_view().to_set() =~= Set::<Seq<char>>::empty());
        }
        match text {
            None => File { set, keys, path },
            Some(t) => {
                let toks = split_ws(t);
                let ghost d = toks.deep_view();
                let mut i: usize = 0;
                proof {
                    assert(d.take(0).to_set() =~= Set::<Seq<char>>::empty());
                }
                while i < toks.len()
                    invariant
                        d == toks.deep_view(),
                        i <= toks.len(),
                        set@ == d.take(i as int).to_set(),
                        keys.deep_view().to_set() == set@,
                    decreases toks.len() - i,
                {
                    let ghost pre_set = set@;
                    let ghost pre_keys = keys.deep_view();
                    let fresh = set.insert(toks[i].clone());
                    proof {
                        lemma_take_step_to_set(d, i as int);
                    }
                    if fresh {
                        keys.push(toks[i].clone());
                        proof {
                            assert(keys.deep_view() =~= pre_keys.push(d[i as int]));
                            lemma_push_to_set(pre_keys, d[i as int]);
                        }
                    } else {
                        proof {
                            assert(pre_set.insert(d[i as int]) =~= pre_set);
                        }
                    }
                    i = i + 1;
                }
                proof {
                    assert(d.take(toks.len() as int) =~= d);
                }
                File { set, keys, path }
            },
        }
    }

    /// Loads the store from the snapshot at `path`. A missing snapshot is
    /// the empty store; any other read failure aborts construction.
    pub fn new(path: String) -> (r: Result<File, Error>)
        ensures
            match r {
                Ok(f) => f.wf() && f.remembers() && !f.persists_trivially()
                    && f.snapshot_path() == path@,
                Err(e) => e is Io,
            },
    {
        match read_file_text(&path) {
            Ok(text) => Ok(File::from_snapshot_text(path, Some(text.as_str()))),
            Err(LoadError::Missing) => Ok(File::from_snapshot_text(path, None)),
            Err(LoadError::Unreadable(m)) => Err(Error::Io(m)),
        }
    }

    /// The exact text `persist` writes: every key of the store, one per
    /// line, in insertion order.
    pub fn snapshot_text(&self) -> (r: String)
        requires
            self.wf(),
        ensures
            r@ == spec_render(self.spec_keys()),
            self.spec_keys().to_set() == self.known(),
    {
        render_snapshot(&self.keys)
    }

    /// The degraded persistence path: rewrites the snapshot at the
    /// store's path in place, accepting the (small) risk of a partial
    /// file if the process dies mid-write. `persist` falls back to this
    /// when any stage of the atomic path fails.
    pub fn persist_fallback(self) -> (r: Result<(), Error>)
        ensures
            r matches Err(e) ==> e is Io,
    {
        let rendered = render_snapshot(&self.keys);
        write_direct(&self.path, &rendered)
    }
}

fn write_direct(path: &String, rendered: &String) -> (r: Result<(), Error>)
    ensures
        r matches Err(e) ==> e is Io,
{
    match write_file_text(path, rendered) {
        Ok(()) => Ok(()),
        Err(m) => Err(Error::Io(m)),
    }
}

/// The index of the last `/`, or -1 if there is none.
pub open spec fn spec_last_slash(p: Seq<char>) -> int
    decreases p.len(),
{
    if p.len() == 0 {
        -1
    } else if p[p.len() - 1] == '/' {
        p.len() - 1
    } else {
        spec_last_slash(p.drop_last())
    }
}

/// The directory that holds `p`: everything before the last `/` (the root
/// if the slash comes first), or `.` for a bare file name. The temporary
/// file must be created here so the final rename stays on one filesystem.
pub open spec fn spec_parent_dir(p: Seq<char>) -> Seq<char> {
    let i = spec_last_slash(p);
    if i < 0 {
        "."@
    } else if i == 0 {
        "/"@
    } else {
        p.take(i)
    }
}

pub fn parent_dir(path: &str) -> (r: String)
    ensures
        r@ == spec_parent_dir(path@),
{
    let n = path.unicode_len();
    let mut j = n;
    proof {
        assert(path@.take(n as int) =~= path@);
    }
    while j > 0 && path.get_char(j - 1) != '/'
        invariant
            n == path@.len(),
            j <= n,
            spec_last_slash(path@.take(j as int)) == spec_last_slash(path@),
        decreases j,
    {
        proof {
            let u = path@.take(j as int);
            assert(u[u.len() - 1] == path@[j - 1]);
            assert(u.drop_last() =~= path@.take(j as int - 1));
        }
        j = j - 1;
    }
    if j == 0 {
        proof {
            assert(path@.take(0) =~= Seq::<char>::empty());
        }
        String::from_str(".")
    } else {
        proof {
            let u = path@.take(j as int);
            assert(u[u.len() - 1] == path@[j - 1]);
        }
        if j == 1 {
            String::from_str("/")
        } else {
            String::from_str(path.substring_char(0, j - 1))
        }
    }
}

impl Cache for File {
    /// The set and the ordered key list hold the same keys.
    closed spec fn wf(&self) -> bool {
        self.set@ == self.keys.deep_view().to_set()
    }

    closed spec fn known(&self) -> Set<Seq<char>> {
        self.set@
    }

    open spec fn remembers(&self) -> bool {
        true
    }

    open spec fn persists_trivially(&self) -> bool {
        false
    }

    closed spec fn snapshot_path(&self) -> Seq<char> {
        self.path@
    }

    fn is_new(&mut self, spoiler: &Spoiler) -> (r: bool) {
        let ghost pre_set = self.set@;
        let ghost pre_keys = self.keys.deep_view();
        let fresh = self.set.insert(spoiler.image.clone());
        if fresh {
            self.keys.push(spoiler.image.clone());
            proof {
                assert(self.keys.deep_view() =~= pre_keys.push(spoiler.image@));
                lemma_push_to_set(pre_keys, spoiler.image@);
            }
        } else {
            proof {
                assert(pre_set.insert(spoiler.image@) =~= pre_set);
            }
        }
        fresh
    }

    /// Writes the snapshot atomically through a temporary file in the
    /// snapshot's directory; if any stage of that fails, falls back to
    /// rewriting the snapshot in place, and only reports an error when
    /// the fallback fails too.
    fn persist(self) -> (r: Result<(), Error>) {
        let rendered = render_snapshot(&self.keys);
        let dir = parent_dir(self.path.as_str());
        match atomic_write_text(&dir, &self.path, &rendered) {
            Ok(()) => Ok(()),
            Err(_) => write_direct(&self.path, &rendered),
        }
    }
}

} // verus!
