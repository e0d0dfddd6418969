use vstd::prelude::*;

verus! {

/// The position of the last element of `s` that meets `p`.
pub open spec fn last_index<T>(s: Seq<T>, p: spec_fn(T) -> bool) -> Option<int>
    decreases s.len(),
{
    if s.len() == 0 {
        None
    } else if p(s.last()) {
        Some(s.len() - 1)
    } else {
        last_index(s.drop_last(), p)
    }
}

pub proof fn lemma_last_index_bounds<T>(s: Seq<T>, p: spec_fn(T) -> bool)
    ensures
        match last_index(s, p) {
            Some(i) => 0 <= i < s.len() && p(s[i]),
            None => forall|j: int| 0 <= j < s.len() ==> !p(#[trigger] s[j]),
        },
    decreases s.len(),
{
    if s.len() > 0 && !p(s.last()) {
        lemma_last_index_bounds(s.drop_last(), p);
        assert forall|j: int| 0 <= j < s.len() && last_index(s, p).is_none() implies !p(
            #[trigger] s[j],
        ) by {
            if j < s.len() - 1 {
                assert(s[j] == s.drop_last()[j]);
            }
        }
    }
}

pub proof fn lemma_last_index_push<T>(s: Seq<T>, x: T, p: spec_fn(T) -> bool)
    ensures
        last_index(s.push(x), p) == if p(x) { Some(s.len() as int) } else { last_index(s, p) },
{
    assert(s.push(x).drop_last() =~= s);
}

/// The stored files: pairs of path and content, the newest last.
pub type FilesView = Seq<(Seq<char>, Seq<u8>)>;

pub open spec fn at_path(path: Seq<char>) -> spec_fn((Seq<char>, Seq<u8>)) -> bool {
    |e: (Seq<char>, Seq<u8>)| e.0 == path
}

/// What a reader sees at `path`: the content of its last commit, if any.
pub open spec fn read_file(files: FilesView, path: Seq<char>) -> Option<Seq<u8>> {
    match last_index(files, at_path(path)) {
        Some(i) => Some(files[i].1),
        None => None,
    }
}

/// A commit at `e.0` changes what readers see there, and only there.
pub proof fn lemma_read_file_push(files: FilesView, e: (Seq<char>, Seq<u8>), p: Seq<char>)
    ensures
        read_file(files.push(e), p) == if e.0 == p {
            Some(e.1)
        } else {
            read_file(files, p)
        },
{
    lemma_last_index_push(files, e, at_path(p));
    lemma_last_index_bounds(files, at_path(p));
    assert(files.push(e)[files.len() as int] == e);
}

/// The name of the temporary file that a write to `path` goes through.
pub open spec fn temp_path(path: Seq<char>) -> Seq<char> {
    path + ".tmp"@
}

/// A file being written. Its bytes are not visible at `path` until it is
/// committed to a `BlobStore`.
pub struct StagedBlob {
    pub path: String,
    pub temp: String,
    pub bytes: Vec<u8>,
}

impl StagedBlob {
    /// Starts a write to `path`, through an empty temporary file.
    pub fn begin(path: &String) -> (r: StagedBlob)
        ensures
            r.path@ == path@,
            r.temp@ == temp_path(path@),
            r.bytes@ == Seq::<u8>::empty(),
    {
        let mut temp = path.clone();
        temp.append(".tmp");
        StagedBlob { path: path.clone(), temp, bytes: Vec::new() }
    }

    /// Appends a chunk to the temporary file; returns how many bytes were
    /// written.
    pub fn write(&mut self, chunk: &[u8]) -> (n: usize)
        ensures
            final(self).path == old(self).path,
            final(self).temp == old(self).temp,
            final(self).bytes@ == old(self).bytes@ + chunk@,
            n == chunk@.len(),
    {
        let ghost start = self.bytes@;
        let mut i: usize = 0;
        while i < chunk.len()
            invariant
                i <= chunk@.len(),
                self.path == old(self).path,
                self.temp == old(self).temp,
                self.bytes@ == start + chunk@.take(i as int),
            decreases chunk.len() - i,
        {
            self.bytes.push(chunk[i]);
            i = i + 1;
            assert(self.bytes@ =~= start + chunk@.take(i as int));
        }
        assert(chunk@.take(chunk@.len() as int) =~= chunk@);
        i
    }
}

/// Holds file contents by path. A file becomes visible only whole, by
/// `commit`, which stands for the rename of its temporary file.
pub struct BlobStore {
    files: Vec<(String, Vec<u8>)>,
}

impl View for BlobStore {
    type V = FilesView;

    closed spec fn view(&self) -> FilesView {
        self.files@.map_values(|e: (String, Vec<u8>)| (e.0@, e.1@))
    }
}

fn copy_bytes(v: &Vec<u8>) -> (r: Vec<u8>)
    ensures
        r@ == v@,
{
    let mut r: Vec<u8> = Vec::new();
    let mut i: usize = 0;
    while i < v.len()
        invariant
            i <= v@.len(),
            r@ == v@.take(i as int),
        decreases v.len() - i,
    {
        r.push(v[i]);
        i = i + 1;
        assert(r@ =~= v@.take(i as int));
    }
    assert(r@ =~= v@);
    r
}

impl BlobStore {
    pub fn new() -> (r: BlobStore)
        ensures
            r@ == Seq::<(Seq<char>, Seq<u8>)>::empty(),
    {
        let r = BlobStore { files: Vec::new() };
        assert(r@ =~= Seq::<(Seq<char>, Seq<u8>)>::empty());
        r
    }

    fn find(&self, path: &String) -> (r: Option<usize>)
        ensures
            match r {
                Some(i) => last_index(self@, at_path(path@)) == Some(i as int),
                None => last_index(self@, at_path(path@)).is_none(),
            },
    {
        let ghost v = self@;
        let mut i: usize = self.files.len();
        assert(v.take(i as int) =~= v);
        while i > 0
            invariant
                i <= v.len(),
                v == self@,
                last_index(v, at_path(path@)) == last_index(v.take(i as int), at_path(path@)),
            decreases i,
        {
            let ghost t = v.take(i as int);
            assert(t.last() == v[i - 1]);
            assert(t.drop_last() =~= v.take(i - 1));
            if self.files[i - 1].0 == *path {
                return Some(i - 1);
            }
            i = i - 1;
        }
        None
    }

    /// Whether a file has been committed at `path`.
    pub fn contains(&self, path: &String) -> (r: bool)
        ensures
            r == read_file(self@, path@).is_some(),
    {
        self.find(path).is_some()
    }

    /// The content committed last at `path`.
    pub fn read(&self, path: &String) -> (r: Option<Vec<u8>>)
        ensures
            match r {
                Some(b) => read_file(self@, path@) == Some(b@),
                None => read_file(self@, path@).is_none(),
            },
    {
        proof {
            lemma_last_index_bounds(self@, at_path(path@));
        }
        match self.find(path) {
            Some(i) => {
                assert(self@[i as int] == (self.files@[i as int].0@, self.files@[i as int].1@));
                Some(copy_bytes(&self.files[i].1))
            },
            None => None,
        }
    }

    /// Publishes a staged file at its path, whole.
    pub fn commit(&mut self, staged: StagedBlob)
        ensures
            final(self)@ == old(self)@.push((staged.path@, staged.bytes@)),
    {
        let ghost before = self@;
        self.files.push((staged.path, staged.bytes));
        assert(self@ =~= before.push((staged.path@, staged.bytes@)));
    }

    /// Writes `body` to `path` through a temporary file, then commits it.
    pub fn store(&mut self, path: &String, body: &[u8])
        ensures
            final(self)@ == old(self)@.push((path@, body@)),
    {
        let mut staged = StagedBlob::begin(path);
        staged.write(body);
        assert(staged.bytes@ =~= body@);
        self.commit(staged);
    }
}

} // verus!
