//! Which file a module import names, so that the bundler can tell files
//! apart: the importing file's directory joined with the module path, `.`
//! and `..` resolved, and the file name given the `.xeon` extension.
use vstd::prelude::*;
use crate::text::chars_of;

verus! {

/// A file as the bundler tells files apart: whether its path is absolute,
/// and the pieces of its path with empty pieces, `.` and `..` resolved.
pub type FileKey = (bool, Seq<Seq<char>>);

/// The pieces of a path between its `/` separators, in order, empty ones
/// included.
pub open spec fn split_path(s: Seq<char>) -> Seq<Seq<char>>
    decreases s.len(),
{
    if s.len() == 0 {
        seq![Seq::empty()]
    } else if s.last() == '/' {
        split_path(s.drop_last()).push(Seq::empty())
    } else {
        let p = split_path(s.drop_last());
        p.update(p.len() - 1, p.last().push(s.last()))
    }
}

pub open spec fn is_dot(p: Seq<char>) -> bool {
    p == seq!['.']
}

pub open spec fn is_dot_dot(p: Seq<char>) -> bool {
    p == seq!['.', '.']
}

/// One piece added to the resolved pieces `acc`: an empty piece and `.` add
/// nothing, `..` takes back the last piece unless that is `..` too (or there
/// is none), and any other piece is appended.
pub open spec fn path_step(acc: Seq<Seq<char>>, p: Seq<char>) -> Seq<Seq<char>> {
    if p.len() == 0 || is_dot(p) {
        acc
    } else if is_dot_dot(p) && acc.len() > 0 && !is_dot_dot(acc.last()) {
        acc.drop_last()
    } else {
        acc.push(p)
    }
}

/// The pieces `parts` added in turn to `acc`.
pub open spec fn resolve(acc: Seq<Seq<char>>, parts: Seq<Seq<char>>) -> Seq<Seq<char>>
    decreases parts.len(),
{
    if parts.len() == 0 {
        acc
    } else {
        path_step(resolve(acc, parts.drop_last()), parts.last())
    }
}

/// The index of the last `.` of `name`, or -1.
pub open spec fn last_dot(name: Seq<char>) -> int
    decreases name.len(),
{
    if name.len() == 0 {
        -1
    } else if name.last() == '.' {
        name.len() - 1
    } else {
        last_dot(name.drop_last())
    }
}

/// The file name that `Path::set_extension("xeon")` gives: the name up to
/// its last `.` (unless that `.` starts the name), then `.xeon`.
pub open spec fn with_xeon_extension(name: Seq<char>) -> Seq<char> {
    let d = last_dot(name);
    (if d > 0 {
        name.subrange(0, d)
    } else {
        name
    }) + ".xeon"@
}

/// The file of the entry path itself.
pub open spec fn entry_key(path: Seq<char>) -> FileKey {
    (path.len() > 0 && path[0] == '/', resolve(Seq::empty(), split_path(path)))
}

/// The file that `module` names when the file `importer` imports it: its
/// pieces are the importer's directory followed by the module's pieces, and
/// its name takes the `.xeon` extension.
pub open spec fn module_key(importer: FileKey, module: Seq<char>) -> FileKey {
    let dir = if importer.1.len() > 0 {
        importer.1.drop_last()
    } else {
        importer.1
    };
    let pieces = resolve(dir, split_path(module));
    (
        importer.0,
        if pieces.len() > 0 && !is_dot_dot(pieces.last()) {
            pieces.update(pieces.len() - 1, with_xeon_extension(pieces.last()))
        } else {
            pieces
        },
    )
}

/// The models of a sequence of character vectors.
pub open spec fn pieces_view(v: Seq<Vec<char>>) -> Seq<Seq<char>> {
    Seq::new(v.len(), |i: int| v[i]@)
}

/// A file, as `FileKey` describes it.
pub struct FileId {
    absolute: bool,
    pieces: Vec<Vec<char>>,
}

impl FileId {
    pub closed spec fn key(&self) -> FileKey {
        (self.absolute, pieces_view(self.pieces@))
    }

    /// The file of the entry path.
    pub fn of_entry(path: &str) -> (f: FileId)
        ensures
            f.key() == entry_key(path@),
    {
        let chars = chars_of(path);
        let parts = split_pieces(&chars);
        let mut pieces: Vec<Vec<char>> = Vec::new();
        assert(pieces_view(pieces@) =~= Seq::<Seq<char>>::empty());
        resolve_into(&mut pieces, &parts);
        FileId { absolute: chars.len() > 0 && chars[0] == '/', pieces }
    }

    /// The file that `module` names when this file imports it.
    pub fn of_module(&self, module: &str) -> (f: FileId)
        ensures
            f.key() == module_key(self.key(), module@),
    {
        let chars = chars_of(module);
        let parts = split_pieces(&chars);
        let mut pieces = copy_pieces(&self.pieces);
        if pieces.len() > 0 {
            pieces.pop();
        }
        assert(pieces_view(pieces@) =~= (if self.key().1.len() > 0 {
            self.key().1.drop_last()
        } else {
            self.key().1
        }));
        resolve_into(&mut pieces, &parts);
        let n = pieces.len();
        if n > 0 && !is_dot_dot_exec(&pieces[n - 1]) {
            let named = with_xeon_exec(&pieces[n - 1]);
            let ghost before = pieces_view(pieces@);
            pieces.set(n - 1, named);
            assert(pieces_view(pieces@) =~= before.update(n - 1, with_xeon_extension(before.last())));
        }
        FileId { absolute: self.absolute, pieces }
    }

    /// A copy of this file id.
    pub fn copy(&self) -> (f: FileId)
        ensures
            f.key() == self.key(),
    {
        FileId { absolute: self.absolute, pieces: copy_pieces(&self.pieces) }
    }

    /// Whether two ids name the same file.
    pub fn same(&self, other: &FileId) -> (b: bool)
        ensures
            b == (self.key() == other.key()),
    {
        if self.absolute != other.absolute || self.pieces.len() != other.pieces.len() {
            assert(self.key().1.len() != other.key().1.len() ==> self.key() != other.key());
            return false;
        }
        let mut i: usize = 0;
        while i < self.pieces.len()
            invariant
                i <= self.pieces.len() == other.pieces.len(),
                forall|j: int| 0 <= j < i ==> self.pieces@[j]@ == other.pieces@[j]@,
            decreases self.pieces.len() - i,
        {
            if !same_chars(&self.pieces[i], &other.pieces[i]) {
                assert(self.key().1[i as int] != other.key().1[i as int]);
                return false;
            }
            i = i + 1;
        }
        assert(self.key().1 =~= other.key().1);
        true
    }
}

/// The files of a sequence of ids.
pub open spec fn keys_view(v: Seq<FileId>) -> Seq<FileKey> {
    Seq::new(v.len(), |i: int| v[i].key())
}

/// Whether one of `ids` names the file `f`.
pub fn contains_file(ids: &Vec<FileId>, f: &FileId) -> (b: bool)
    ensures
        b == keys_view(ids@).contains(f.key()),
{
    let mut i: usize = 0;
    while i < ids.len()
        invariant
            i <= ids.len(),
            forall|j: int| 0 <= j < i ==> ids@[j].key() != f.key(),
        decreases ids.len() - i,
    {
        if ids[i].same(f) {
            assert(keys_view(ids@)[i as int] == f.key());
            return true;
        }
        i = i + 1;
    }
    assert(!keys_view(ids@).contains(f.key())) by {
        if keys_view(ids@).contains(f.key()) {
            let j = choose|j: int| 0 <= j < ids@.len() && keys_view(ids@)[j] == f.key();
            assert(ids@[j].key() == f.key());
        }
    }
    false
}

fn same_chars(a: &Vec<char>, b: &Vec<char>) -> (r: bool)
    ensures
        r == (a@ == b@),
{
    if a.len() != b.len() {
        return false;
    }
    let mut i: usize = 0;
    while i < a.len()
        invariant
            i <= a.len() == b.len(),
            forall|j: int| 0 <= j < i ==> a@[j] == b@[j],
        decreases a.len() - i,
    {
        if a[i] != b[i] {
            return false;
        }
        i = i + 1;
    }
    assert(a@ =~= b@);
    true
}

fn copy_chars(a: &Vec<char>) -> (r: Vec<char>)
    ensures
        r@ == a@,
{
    let mut r: Vec<char> = Vec::new();
    let mut i: usize = 0;
    while i < a.len()
        invariant
            i <= a.len(),
            r@ == a@.take(i as int),
        decreases a.len() - i,
    {
        r.push(a[i]);
        i = i + 1;
        assert(r@ =~= a@.take(i as int));
    }
    assert(a@.take(a.len() as int) =~= a@);
    r
}

fn copy_pieces(v: &Vec<Vec<char>>) -> (r: Vec<Vec<char>>)
    ensures
        pieces_view(r@) == pieces_view(v@),
{
    let mut r: Vec<Vec<char>> = Vec::new();
    let mut i: usize = 0;
    while i < v.len()
        invariant
            i <= v.len(),
            pieces_view(r@) == pieces_view(v@).take(i as int),
        decreases v.len() - i,
    {
        let c = copy_chars(&v[i]);
        let ghost before = pieces_view(r@);
        r.push(c);
        assert(pieces_view(r@) =~= before.push(v@[i as int]@));
        i = i + 1;
        assert(pieces_view(r@) =~= pieces_view(v@).take(i as int));
    }
    assert(pieces_view(v@).take(v.len() as int) =~= pieces_view(v@));
    r
}

proof fn lemma_split_nonempty(s: Seq<char>)
    ensures
        split_path(s).len() >= 1,
    decreases s.len(),
{
    if s.len() > 0 {
        lemma_split_nonempty(s.drop_last());
    }
}

fn split_pieces(s: &Vec<char>) -> (r: Vec<Vec<char>>)
    ensures
        pieces_view(r@) == split_path(s@),
{
    let mut done: Vec<Vec<char>> = Vec::new();
    let mut cur: Vec<char> = Vec::new();
    let mut i: usize = 0;
    assert(s@.take(0) =~= Seq::<char>::empty());
    assert(pieces_view(done@).push(cur@) =~= split_path(s@.take(0)));
    while i < s.len()
        invariant
            i <= s.len(),
            pieces_view(done@).push(cur@) == split_path(s@.take(i as int)),
        decreases s.len() - i,
    {
        let ghost prev = split_path(s@.take(i as int));
        proof {
            lemma_split_nonempty(s@.take(i as int));
        }
        assert(s@.take(i + 1).drop_last() =~= s@.take(i as int));
        assert(s@.take(i + 1).last() == s@[i as int]);
        if s[i] == '/' {
            let ghost before = pieces_view(done@);
            done.push(cur);
            cur = Vec::new();
            assert(pieces_view(done@) =~= before.push(prev.last()));
            assert(pieces_view(done@).push(cur@) =~= split_path(s@.take(i + 1)));
        } else {
            let ghost before = pieces_view(done@);
            cur.push(s[i]);
            assert(pieces_view(done@).push(cur@) =~= prev.update(
                prev.len() - 1,
                prev.last().push(s@[i as int]),
            ));
        }
        i = i + 1;
    }
    assert(s@.take(s.len() as int) =~= s@);
    done.push(cur);
    done
}

fn is_dot_dot_exec(p: &Vec<char>) -> (b: bool)
    ensures
        b == is_dot_dot(p@),
{
    let b = p.len() == 2 && p[0] == '.' && p[1] == '.';
    assert(b ==> p@ =~= seq!['.', '.']);
    b
}

fn is_dot_exec(p: &Vec<char>) -> (b: bool)
    ensures
        b == is_dot(p@),
{
    let b = p.len() == 1 && p[0] == '.';
    assert(b ==> p@ =~= seq!['.']);
    b
}

/// Adds the pieces `parts` in turn to `acc`, as `resolve` says.
fn resolve_into(acc: &mut Vec<Vec<char>>, parts: &Vec<Vec<char>>)
    ensures
        pieces_view(final(acc)@) == resolve(pieces_view(old(acc)@), pieces_view(parts@)),
{
    let ghost start = pieces_view(acc@);
    let ghost all = pieces_view(parts@);
    let mut i: usize = 0;
    assert(all.take(0) =~= Seq::<Seq<char>>::empty());
    while i < parts.len()
        invariant
            i <= parts.len(),
            all == pieces_view(parts@),
            start == pieces_view(old(acc)@),
            pieces_view(acc@) == resolve(start, all.take(i as int)),
        decreases parts.len() - i,
    {
        let ghost before = pieces_view(acc@);
        assert(all.take(i + 1).drop_last() =~= all.take(i as int));
        assert(all.take(i + 1).last() == parts@[i as int]@);
        let p = &parts[i];
        if p.len() == 0 || is_dot_exec(p) {
        } else if is_dot_dot_exec(p) && acc.len() > 0 && !is_dot_dot_exec(&acc[acc.len() - 1]) {
            acc.pop();
            assert(pieces_view(acc@) =~= before.drop_last());
        } else {
            let c = copy_chars(p);
            acc.push(c);
            assert(pieces_view(acc@) =~= before.push(p@));
        }
        i = i + 1;
    }
    assert(all.take(parts.len() as int) =~= all);
}

/// The file name with the `.xeon` extension, as `with_xeon_extension` says.
fn with_xeon_exec(name: &Vec<char>) -> (r: Vec<char>)
    ensures
        r@ == with_xeon_extension(name@),
{
    let mut j: usize = name.len();
    assert(name@.take(j as int) =~= name@);
    while j > 0 && name[j - 1] != '.'
        invariant
            j <= name.len(),
            last_dot(name@) == last_dot(name@.take(j as int)),
        decreases j,
    {
        assert(name@.take(j as int).drop_last() =~= name@.take(j - 1));
        j = j - 1;
    }
    assert(name@.take(0) =~= Seq::<char>::empty());
    let stop = if j > 1 {
        j - 1
    } else {
        name.len()
    };
    assert(j > 0 ==> last_dot(name@) == j - 1);
    let mut r: Vec<char> = Vec::new();
    let mut i: usize = 0;
    while i < stop
        invariant
            i <= stop <= name.len(),
            r@ == name@.take(i as int),
        decreases stop - i,
    {
        r.push(name[i]);
        i = i + 1;
        assert(r@ =~= name@.take(i as int));
    }
    let ghost stem = r@;
    r.push('.');
    r.push('x');
    r.push('e');
    r.push('o');
    r.push('n');
    proof {
        reveal_strlit(".xeon");
    }
    assert(stem =~= (if last_dot(name@) > 0 {
        name@.subrange(0, last_dot(name@))
    } else {
        name@
    }));
    assert(r@ =~= with_xeon_extension(name@));
    r
}

} // verus!
