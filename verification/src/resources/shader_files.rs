//! Which files of a shader directory make up which programs: every
//! `NAME.vert` file is a program, with `NAME.frag` as its fragment stage and
//! `NAME.geom`, if present, as its geometry stage. Names are compared as
//! bytes; a file name's stem and extension split at its last dot, as
//! `std::path::Path` does for a single component.
use vstd::prelude::*;

verus! {

/// One entry of a shader directory.
#[derive(Clone, Debug)]
pub struct ShaderDirEntry {
    /// The entry's file name.
    pub name: Vec<u8>,
    /// Whether the entry is a file (not a directory).
    pub is_file: bool,
}

/// The entries that make up one program, by index.
#[derive(Clone, Copy, Debug, PartialEq, Eq, Structural)]
pub struct ShaderSources {
    /// The `NAME.vert` file.
    pub vertex: usize,
    /// The first entry named `NAME.frag`, if it is a file.
    pub fragment: Option<usize>,
    /// The first entry named `NAME.geom`, if it is a file.
    pub geometry: Option<usize>,
}

/// The byte `.`.
pub const DOT: u8 = 0x2e;

/// Index of the last dot among the first `n` bytes of `name`, or -1.
pub open spec fn last_dot_before(name: Seq<u8>, n: int) -> int
    decreases n,
{
    if n <= 0 {
        -1
    } else if name[n - 1] == DOT {
        n - 1
    } else {
        last_dot_before(name, n - 1)
    }
}

/// Index of the dot that starts the extension; the name has an extension
/// when that dot exists and is not its first byte.
pub open spec fn ext_dot(name: Seq<u8>) -> int {
    last_dot_before(name, name.len() as int)
}

/// Whether `name` has an extension.
pub open spec fn has_extension(name: Seq<u8>) -> bool {
    ext_dot(name) > 0
}

/// The name without its extension.
pub open spec fn stem_of(name: Seq<u8>) -> Seq<u8> {
    if has_extension(name) {
        name.take(ext_dot(name))
    } else {
        name
    }
}

/// `vert`.
pub open spec fn vert_ext() -> Seq<u8> {
    seq![0x76u8, 0x65u8, 0x72u8, 0x74u8]
}

/// `.frag`.
pub open spec fn frag_suffix() -> Seq<u8> {
    seq![0x2eu8, 0x66u8, 0x72u8, 0x61u8, 0x67u8]
}

/// `.geom`.
pub open spec fn geom_suffix() -> Seq<u8> {
    seq![0x2eu8, 0x67u8, 0x65u8, 0x6fu8, 0x6du8]
}

/// Whether `name` ends in the extension `vert`.
pub open spec fn is_vertex_name(name: Seq<u8>) -> bool {
    has_extension(name) && name.skip(ext_dot(name) + 1) == vert_ext()
}

/// Index of the first of the first `n` entries named `target`.
pub open spec fn first_named(entries: Seq<ShaderDirEntry>, target: Seq<u8>, n: int) -> Option<int>
    decreases n,
{
    if n <= 0 {
        None
    } else {
        match first_named(entries, target, n - 1) {
            Some(j) => Some(j),
            None => if entries[n - 1].name@ == target {
                Some(n - 1)
            } else {
                None
            },
        }
    }
}

/// The entry a lookup of `target` finds: the first entry with that name,
/// when it is a file.
pub open spec fn lookup_file(entries: Seq<ShaderDirEntry>, target: Seq<u8>) -> Option<usize> {
    match first_named(entries, target, entries.len() as int) {
        Some(j) => if entries[j].is_file {
            Some(j as usize)
        } else {
            None
        },
        None => None,
    }
}

/// The program whose vertex stage is entry `i`.
pub open spec fn sources_of(entries: Seq<ShaderDirEntry>, i: int) -> ShaderSources {
    let stem = stem_of(entries[i].name@);
    ShaderSources {
        vertex: i as usize,
        fragment: lookup_file(entries, stem + frag_suffix()),
        geometry: lookup_file(entries, stem + geom_suffix()),
    }
}

/// The programs of the first `n` entries, in entry order.
pub open spec fn programs_upto(entries: Seq<ShaderDirEntry>, n: int) -> Seq<ShaderSources>
    decreases n,
{
    if n <= 0 {
        Seq::empty()
    } else if entries[n - 1].is_file && is_vertex_name(entries[n - 1].name@) {
        programs_upto(entries, n - 1).push(sources_of(entries, n - 1))
    } else {
        programs_upto(entries, n - 1)
    }
}

/// Index of the last dot in `name`, if any.
fn find_last_dot(name: &Vec<u8>) -> (r: Option<usize>)
    ensures
        match r {
            Some(k) => k == last_dot_before(name@, name@.len() as int) && k < name@.len(),
            None => last_dot_before(name@, name@.len() as int) == -1,
        },
{
    let mut n = name.len();
    while n > 0
        invariant
            n <= name@.len(),
            last_dot_before(name@, name@.len() as int) == last_dot_before(name@, n as int),
        decreases n,
    {
        if name[n - 1] == DOT {
            return Some(n - 1);
        }
        n = n - 1;
    }
    None
}

/// Whether `a` and `b` hold the same bytes.
fn same_bytes(a: &Vec<u8>, b: &Vec<u8>) -> (r: bool)
    ensures
        r == (a@ == b@),
{
    if a.len() != b.len() {
        return false;
    }
    let mut i: usize = 0;
    while i < a.len()
        invariant
            a@.len() == b@.len(),
            i <= a@.len(),
            forall|k: int| 0 <= k < i ==> a@[k] == b@[k],
        decreases a@.len() - i,
    {
        if a[i] != b[i] {
            return false;
        }
        i = i + 1;
    }
    assert(a@ =~= b@);
    true
}

/// The first `len` bytes of `name` followed by `suffix`.
fn prefix_with(name: &Vec<u8>, len: usize, suffix: &Vec<u8>) -> (r: Vec<u8>)
    requires
        len <= name@.len(),
    ensures
        r@ == name@.take(len as int) + suffix@,
{
    let mut out: Vec<u8> = Vec::new();
    for i in 0..len
        invariant
            len <= name@.len(),
            out@ == name@.take(i as int),
    {
        out.push(name[i]);
        assert(name@.take(i + 1) =~= name@.take(i as int).push(name@[i as int]));
    }
    for j in 0..suffix.len()
        invariant
            out@ == name@.take(len as int) + suffix@.take(j as int),
    {
        out.push(suffix[j]);
        assert(suffix@.take(j + 1) =~= suffix@.take(j as int).push(suffix@[j as int]));
    }
    assert(suffix@.take(suffix@.len() as int) =~= suffix@);
    out
}

/// The entry a lookup of `target` finds.
fn find_file(entries: &Vec<ShaderDirEntry>, target: &Vec<u8>) -> (r: Option<usize>)
    ensures
        r == lookup_file(entries@, target@),
{
    let n = entries.len();
    let mut i: usize = 0;
    while i < n
        invariant
            n == entries@.len(),
            i <= n,
            first_named(entries@, target@, i as int) is None,
        decreases n - i,
    {
        if same_bytes(&entries[i].name, target) {
            proof {
                assert(first_named(entries@, target@, i + 1) == Some(i as int));
                lemma_first_named_stays(entries@, target@, i + 1, n as int);
            }
            if entries[i].is_file {
                return Some(i);
            } else {
                return None;
            }
        }
        i = i + 1;
    }
    None
}

/// A lookup settled among the first `m` entries stays settled.
proof fn lemma_first_named_stays(entries: Seq<ShaderDirEntry>, target: Seq<u8>, m: int, n: int)
    requires
        0 <= m <= n,
        first_named(entries, target, m) is Some,
    ensures
        first_named(entries, target, n) == first_named(entries, target, m),
    decreases n - m,
{
    if m < n {
        lemma_first_named_stays(entries, target, m, n - 1);
    }
}

/// `name` ends in the extension `vert`, given where its last dot is.
fn is_vertex_file(name: &Vec<u8>) -> (r: bool)
    ensures
        r == is_vertex_name(name@),
{
    match find_last_dot(name) {
        Some(k) => {
            if k == 0 || name.len() - k != 5 {
                assert(k > 0 ==> name@.skip(k + 1).len() != 4);
                return false;
            }
            let r = name[k + 1] == 0x76u8 && name[k + 2] == 0x65u8 && name[k + 3] == 0x72u8 && name[k + 4]
                == 0x74u8;
            assert(r == (name@.skip(k + 1) =~= vert_ext()));
            r
        },
        None => false,
    }
}

/// The programs a shader directory holds: one per file whose extension is
/// `vert`, in entry order, with the entries holding its other stages.
pub fn plan_shader_programs(entries: &Vec<ShaderDirEntry>) -> (r: Vec<ShaderSources>)
    ensures
        r@ == programs_upto(entries@, entries@.len() as int),
{
    let frag: Vec<u8> = vec![0x2eu8, 0x66u8, 0x72u8, 0x61u8, 0x67u8];
    let geom: Vec<u8> = vec![0x2eu8, 0x67u8, 0x65u8, 0x6fu8, 0x6du8];
    assert(frag@ =~= frag_suffix());
    assert(geom@ =~= geom_suffix());
    let mut out: Vec<ShaderSources> = Vec::new();
    let n = entries.len();
    for i in 0..n
        invariant
            n == entries@.len(),
            frag@ == frag_suffix(),
            geom@ == geom_suffix(),
            out@ == programs_upto(entries@, i as int),
    {
        let e = &entries[i];
        if e.is_file && is_vertex_file(&e.name) {
            let stem_len = match find_last_dot(&e.name) {
                Some(k) => k,
                None => e.name.len(),
            };
            assert(stem_of(e.name@) == e.name@.take(stem_len as int)) by {
                assert(e.name@.take(e.name@.len() as int) =~= e.name@);
            }
            let f = prefix_with(&e.name, stem_len, &frag);
            let g = prefix_with(&e.name, stem_len, &geom);
            let fragment = find_file(entries, &f);
            let geometry = find_file(entries, &g);
            out.push(ShaderSources { vertex: i, fragment, geometry });
        }
    }
    out
}

} // verus!
