//! The allow-list of host paths the guest may reach: guest paths map to host
//! paths, a lookup of a path below a mapped directory is resolved and
//! remembered, and the host file descriptors the guest opened are tracked.
use vstd::prelude::*;

use vstd::slice::{slice_subrange, slice_to_vec};
use vstd::utf8::encode_utf8;

verus! {

pub const COLON: u8 = 0x3a;

pub const SLASH: u8 = 0x2f;

/// Index of the first `:` in `s` at or after `from`, or `s.len()` if none.
pub open spec fn first_colon(s: Seq<u8>, from: int) -> int
    decreases s.len() - from,
{
    if from >= s.len() {
        s.len() as int
    } else if s[from] == COLON {
        from
    } else {
        first_colon(s, from + 1)
    }
}

/// A mapping parameter `host:guest` split into `(guest, host)`: the host
/// path is what precedes the first `:`, the guest path what follows it up
/// to the next `:` or the end. `None` without a `:`.
pub open spec fn split_spec(p: Seq<u8>) -> Option<(Seq<u8>, Seq<u8>)> {
    let a = first_colon(p, 0);
    if a >= p.len() {
        None
    } else {
        Some((p.subrange(a + 1, first_colon(p, a + 1)), p.subrange(0, a)))
    }
}

/// The host path `h` extended by each non-empty `/`-separated segment of `t`,
/// each joined with one `/`.
pub open spec fn push_segments(h: Seq<u8>, t: Seq<u8>) -> Seq<u8>
    decreases t.len(),
{
    if t.len() == 0 {
        h
    } else if t.last() == SLASH {
        push_segments(h, t.drop_last())
    } else if t.len() == 1 || t[t.len() - 2] == SLASH {
        push_segments(h, t.drop_last()) + seq![SLASH, t.last()]
    } else {
        push_segments(h, t.drop_last()).push(t.last())
    }
}

/// The largest `c < hi` where `g[c]` is a `/` and `g[..c]` is mapped in `m`.
pub open spec fn mapped_cut(m: Map<Seq<u8>, Seq<u8>>, g: Seq<u8>, hi: int) -> Option<int>
    decreases hi,
{
    if hi <= 0 {
        None
    } else if g[hi - 1] == SLASH && m.contains_key(g.subrange(0, hi - 1)) {
        Some(hi - 1)
    } else {
        mapped_cut(m, g, hi - 1)
    }
}

/// The host path of guest path `g`: its own mapping, else the mapping of
/// its nearest mapped ancestor extended by the rest of `g`.
pub open spec fn resolve(m: Map<Seq<u8>, Seq<u8>>, g: Seq<u8>) -> Option<Seq<u8>> {
    if m.contains_key(g) {
        Some(m[g])
    } else {
        match mapped_cut(m, g, g.len() as int) {
            Some(c) => Some(push_segments(m[g.subrange(0, c)], g.subrange(c + 1, g.len() as int))),
            None => None,
        }
    }
}

/// `g[..k]` ends a segment of `g`: its last byte is not `/`, and `g` ends or
/// goes on with `/` after it.
pub open spec fn segment_end(g: Seq<u8>, k: int) -> bool {
    &&& 0 < k <= g.len()
    &&& g[k - 1] != SLASH
    &&& (k == g.len() || g[k] == SLASH)
}

/// The entries a lookup of `g` through the ancestor `g[..c]`, mapped to `h`,
/// adds: each prefix of `g` longer than `g[..c + 1]` and no longer than
/// `upto` that ends a segment, mapped to `h` extended by its part after the
/// ancestor.
pub open spec fn traversal_entries(g: Seq<u8>, c: int, h: Seq<u8>, upto: int) -> Map<
    Seq<u8>,
    Seq<u8>,
> {
    Map::new(
        |key: Seq<u8>|
            c + 1 < key.len() <= upto && key == g.subrange(0, key.len() as int) && segment_end(
                g,
                key.len() as int,
            ),
        |key: Seq<u8>| push_segments(h, g.subrange(c + 1, key.len() as int)),
    )
}

/// The path map after a lookup of `g` in `m`: where `g` resolved through an
/// ancestor, the prefixes of `g` that end a segment, and `g` itself, are
/// mapped to what they resolve to.
pub open spec fn after_lookup(m: Map<Seq<u8>, Seq<u8>>, g: Seq<u8>) -> Map<Seq<u8>, Seq<u8>> {
    if m.contains_key(g) {
        m
    } else {
        match mapped_cut(m, g, g.len() as int) {
            Some(c) => m.union_prefer_right(
                traversal_entries(g, c, m[g.subrange(0, c)], g.len() as int),
            ).insert(g, push_segments(m[g.subrange(0, c)], g.subrange(c + 1, g.len() as int))),
            None => m,
        }
    }
}

pub const TILDE: u8 = 0x7e;

/// Some guest path of `m` maps to host path `p`.
pub open spec fn is_mapped_host(m: Map<Seq<u8>, Seq<u8>>, p: Seq<u8>) -> bool {
    exists|k: Seq<u8>| #[trigger] m.contains_key(k) && m[k] == p
}

/// `r` is the temporary host path for guest path `g` in `tempdir`, where `m`
/// is the path map: `tempdir/` and the last segment of `g`, and where that is
/// a host path of `m` already, followed by as many `~` as make it one longer
/// than the longest host path of `m`.
pub open spec fn is_temporary_path(
    m: Map<Seq<u8>, Seq<u8>>,
    tempdir: Seq<u8>,
    g: Seq<u8>,
    r: Seq<u8>,
) -> bool {
    let base = tempdir + seq![SLASH] + final_name(g);
    if !is_mapped_host(m, base) {
        r == base
    } else {
        &&& base.len() <= r.len()
        &&& r == base + Seq::new((r.len() - base.len()) as nat, |i: int| TILDE)
        &&& forall|k: Seq<u8>| #[trigger] m.contains_key(k) ==> m[k].len() < r.len()
        &&& exists|k: Seq<u8>| #[trigger] m.contains_key(k) && m[k].len() + 1 == r.len()
    }
}

/// The part of `g` after its last `/`.
pub open spec fn final_name(g: Seq<u8>) -> Seq<u8>
    decreases g.len(),
{
    if g.len() == 0 || g.last() == SLASH {
        Seq::empty()
    } else {
        final_name(g.drop_last()).push(g.last())
    }
}

/// `(guest, host)` of mapping parameter `p` whose host path canonicalises to
/// `canonical` where that succeeded.
pub open spec fn mapping_entry(p: Seq<u8>, canonical: Option<Seq<u8>>) -> (Seq<u8>, Seq<u8>) {
    let (g, h) = split_spec(p).unwrap();
    (
        g,
        match canonical {
            Some(c) => c,
            None => h,
        },
    )
}

/// `m` holds exactly the guest paths of `entries`, each mapped to the host
/// path of its last occurrence.
pub open spec fn built_from(m: Map<Seq<u8>, Seq<u8>>, entries: Seq<(Seq<u8>, Seq<u8>)>) -> bool {
    &&& forall|k: Seq<u8>|
        m.contains_key(k) <==> exists|i: int| 0 <= i < entries.len() && #[trigger] entries[i].0 == k
    &&& forall|i: int|
        0 <= i < entries.len() && (forall|j: int|
            i < j < entries.len() ==> #[trigger] entries[j].0 != entries[i].0) ==> m[entries[i].0]
            == #[trigger] entries[i].1
}

/// The file descriptors the guest may use after the host opened `fd` for
/// it: failed opens (`fd < 0`) and the standard streams are never added.
pub open spec fn fd_set_after_open(fds: Set<i32>, fd: i32) -> Set<i32> {
    if fd > 2 {
        fds.insert(fd)
    } else {
        fds
    }
}

/// Whether `a` and `b` hold the same bytes.
pub fn bytes_eq(a: &[u8], b: &[u8]) -> (r: bool)
    ensures
        r == (a@ == b@),
{
    if a.len() != b.len() {
        return false;
    }
    let mut i: usize = 0;
    while i < a.len()
        invariant
            a@.len() == b@.len(),
            i <= a@.len(),
            forall|j: int| 0 <= j < i ==> a@[j] == b@[j],
        decreases a.len() - i,
    {
        if a[i] != b[i] {
            return false;
        }
        i += 1;
    }
    assert(a@ =~= b@);
    true
}

/// Index of the first `:` in `s` at or after `from`, or `s.len()` if none.
fn find_colon(s: &[u8], from: usize) -> (r: usize)
    requires
        from <= s@.len(),
    ensures
        r == first_colon(s@, from as int),
        from <= r <= s@.len(),
{
    let mut i = from;
    while i < s.len()
        invariant
            from <= i <= s@.len(),
            first_colon(s@, from as int) == first_colon(s@, i as int),
        decreases s.len() - i,
    {
        if s[i] == COLON {
            return i;
        }
        i += 1;
    }
    i
}

/// Separates a parameter of the format `./host_dir/host_path.txt:guest_path.txt`
/// into the guest path and the host path, in that order.
pub fn split_guest_and_host_path(parameter: &str) -> (r: Option<(Vec<u8>, Vec<u8>)>)
    ensures
        match (r, split_spec(encode_utf8(parameter@))) {
            (Some((g, h)), Some((sg, sh))) => g@ == sg && h@ == sh,
            (None, None) => true,
            _ => false,
        },
{
    let p = parameter.as_bytes();
    let a = find_colon(p, 0);
    if a >= p.len() {
        return None;
    }
    let b = find_colon(p, a + 1);
    let guest = slice_to_vec(slice_subrange(p, a + 1, b));
    let host = slice_to_vec(slice_subrange(p, 0, a));
    Some((guest, host))
}

/// Map from guest paths to host paths, the host file descriptors the guest
/// opened, and the host directory that temporary files go to.
pub struct UhyveFileMap {
    files: Vec<(Vec<u8>, Vec<u8>)>,
    fds: Vec<i32>,
    tempdir: Vec<u8>,
    paths: Ghost<Map<Seq<u8>, Seq<u8>>>,
}

impl View for UhyveFileMap {
    type V = Map<Seq<u8>, Seq<u8>>;

    closed spec fn view(&self) -> Map<Seq<u8>, Seq<u8>> {
        self.paths@
    }
}

impl UhyveFileMap {
    /// The host file descriptors the guest may operate on.
    pub closed spec fn fd_set(&self) -> Set<i32> {
        self.fds@.to_set()
    }

    /// The host directory of temporary files.
    pub closed spec fn tempdir_path(&self) -> Seq<u8> {
        self.tempdir@
    }

    pub closed spec fn wf(&self) -> bool {
        &&& forall|i: int, j: int|
            0 <= i < j < self.files@.len() ==> (#[trigger] self.files@[i]).0@ != (
            #[trigger] self.files@[j]).0@
        &&& forall|i: int|
            0 <= i < self.files@.len() ==> self.paths@.contains_key((#[trigger] self.files@[i]).0@)
                && self.paths@[self.files@[i].0@] == self.files@[i].1@
        &&& forall|k: Seq<u8>|
            #[trigger] self.paths@.contains_key(k) ==> exists|i: int|
                0 <= i < self.files@.len() && (#[trigger] self.files@[i]).0@ == k
    }

    /// An empty map whose temporary files go to `tempdir`.
    pub fn empty(tempdir: &[u8]) -> (r: UhyveFileMap)
        ensures
            r.wf(),
            r@ == Map::<Seq<u8>, Seq<u8>>::empty(),
            r.fd_set() == Set::<i32>::empty(),
            r.tempdir_path() == tempdir@,
    {
        let r = UhyveFileMap {
            files: Vec::new(),
            fds: Vec::new(),
            tempdir: slice_to_vec(tempdir),
            paths: Ghost(Map::empty()),
        };
        assert(r.fd_set() =~= Set::<i32>::empty());
        r
    }

    /// Index of the entry of guest path `key`.
    fn find(&self, key: &[u8]) -> (r: Option<usize>)
        requires
            self.wf(),
        ensures
            match r {
                Some(i) => i < self.files@.len() && self.files@[i as int].0@ == key@,
                None => !self@.contains_key(key@),
            },
    {
        let mut i: usize = 0;
        while i < self.files.len()
            invariant
                self.wf(),
                i <= self.files@.len(),
                forall|j: int| 0 <= j < i ==> (#[trigger] self.files@[j]).0@ != key@,
            decreases self.files.len() - i,
        {
            if bytes_eq(self.files[i].0.as_slice(), key) {
                return Some(i);
            }
            i += 1;
        }
        None
    }

    /// The host path mapped to guest path `key`, without traversal.
    fn lookup(&self, key: &[u8]) -> (r: Option<Vec<u8>>)
        requires
            self.wf(),
        ensures
            match r {
                Some(h) => self@.contains_key(key@) && h@ == self@[key@],
                None => !self@.contains_key(key@),
            },
    {
        match self.find(key) {
            Some(i) => Some(slice_to_vec(self.files[i].1.as_slice())),
            None => None,
        }
    }

    /// Maps guest path `key` to host path `value`, replacing an earlier
    /// mapping of `key`.
    fn insert(&mut self, key: Vec<u8>, value: Vec<u8>)
        requires
            old(self).wf(),
        ensures
            final(self).wf(),
            final(self)@ == old(self)@.insert(key@, value@),
            final(self).fd_set() == old(self).fd_set(),
            final(self).tempdir_path() == old(self).tempdir_path(),
    {
        let ghost k = key@;
        let ghost v = value@;
        let ghost old_files = self.files@;
        match self.find(key.as_slice()) {
            Some(i) => {
                self.files.set(i, (key, value));
                self.paths = Ghost(self.paths@.insert(k, v));
                assert forall|j: int|
                    0 <= j < self.files@.len() implies self.paths@.contains_key(
                    (#[trigger] self.files@[j]).0@,
                ) && self.paths@[self.files@[j].0@] == self.files@[j].1@ by {
                    if j != i {
                        assert(old_files[j].0@ != old_files[i as int].0@);
                    }
                }
                assert forall|kk: Seq<u8>| #[trigger]
                    self.paths@.contains_key(kk) implies exists|j: int|
                    0 <= j < self.files@.len() && (#[trigger] self.files@[j]).0@ == kk by {
                    if kk != k {
                        let j = choose|j: int|
                            0 <= j < old_files.len() && (#[trigger] old_files[j]).0@ == kk;
                        assert(self.files@[j] == old_files[j]);
                    } else {
                        assert(self.files@[i as int].0@ == kk);
                    }
                }
            },
            None => {
                self.files.push((key, value));
                self.paths = Ghost(self.paths@.insert(k, v));
                let ghost n = old_files.len();
                assert(self.files@[n as int].0@ == k);
                assert forall|j: int|
                    0 <= j < self.files@.len() implies self.paths@.contains_key(
                    (#[trigger] self.files@[j]).0@,
                ) && self.paths@[self.files@[j].0@] == self.files@[j].1@ by {
                    if j < n {
                        assert(self.files@[j] == old_files[j]);
                        assert(old_files[j].0@ != k);
                    }
                }
                assert forall|kk: Seq<u8>| #[trigger]
                    self.paths@.contains_key(kk) implies exists|j: int|
                    0 <= j < self.files@.len() && (#[trigger] self.files@[j]).0@ == kk by {
                    if kk != k {
                        let j = choose|j: int|
                            0 <= j < old_files.len() && (#[trigger] old_files[j]).0@ == kk;
                        assert(self.files@[j] == old_files[j]);
                    }
                }
                assert forall|a: int, b: int|
                    0 <= a < b < self.files@.len() implies (#[trigger] self.files@[a]).0@ != (
                    #[trigger] self.files@[b]).0@ by {
                    if b == n {
                        assert(self.files@[a] == old_files[a]);
                    } else {
                        assert(self.files@[a] == old_files[a]);
                        assert(self.files@[b] == old_files[b]);
                    }
                }
            },
        }
    }

    /// Extends host path `h` of ancestor `g[..cut]` by the rest of `g`, and
    /// maps each prefix of `g` on the way that ends a segment.
    fn extend_and_cache(&mut self, g: &[u8], cut: usize, h: Vec<u8>) -> (r: Vec<u8>)
        requires
            old(self).wf(),
            cut < g@.len(),
        ensures
            final(self).wf(),
            r@ == push_segments(h@, g@.subrange(cut + 1, g@.len() as int)),
            final(self)@ == old(self)@.union_prefer_right(
                traversal_entries(g@, cut as int, h@, g@.len() as int),
            ).insert(g@, r@),
            final(self).fd_set() == old(self).fd_set(),
            final(self).tempdir_path() == old(self).tempdir_path(),
    {
        let ghost c = cut as int;
        let ghost m0 = self@;
        let n = g.len();
        let mut host = h;
        let mut k: usize = cut + 1;
        assert(g@.subrange(c + 1, k as int) =~= Seq::<u8>::empty());
        assert(traversal_entries(g@, c, h@, k as int) =~= Map::<Seq<u8>, Seq<u8>>::empty());
        assert(m0.union_prefer_right(Map::<Seq<u8>, Seq<u8>>::empty()) =~= m0);
        while k < n
            invariant
                self.wf(),
                cut < k <= n,
                n == g@.len(),
                host@ == push_segments(h@, g@.subrange(c + 1, k as int)),
                self@ == m0.union_prefer_right(traversal_entries(g@, c, h@, k as int)),
                self.fd_set() == old(self).fd_set(),
                self.tempdir_path() == old(self).tempdir_path(),
                m0 == old(self)@,
                c == cut,
            decreases n - k,
        {
            let ghost t = g@.subrange(c + 1, k + 1);
            assert(t.drop_last() =~= g@.subrange(c + 1, k as int));
            assert(t.last() == g@[k as int]);
            let ch = g[k];
            if ch != SLASH {
                if k == cut + 1 || g[k - 1] == SLASH {
                    assert(t.len() == 1 || t[t.len() - 2] == SLASH);
                    host.push(SLASH);
                    host.push(ch);
                    assert(host@ =~= push_segments(h@, t.drop_last()) + seq![SLASH, ch]);
                } else {
                    assert(t[t.len() - 2] == g@[k - 1]);
                    host.push(ch);
                }
                assert(host@ == push_segments(h@, t));
                if k + 1 == n || g[k + 1] == SLASH {
                    let key = slice_to_vec(slice_subrange(g, 0, k + 1));
                    let value = slice_to_vec(host.as_slice());
                    let ghost before = self@;
                    self.insert(key, value);
                    assert(segment_end(g@, k + 1));
                    assert(traversal_entries(g@, c, h@, k + 1) =~= traversal_entries(
                        g@,
                        c,
                        h@,
                        k as int,
                    ).insert(g@.subrange(0, k + 1), host@));
                    assert(self@ =~= m0.union_prefer_right(traversal_entries(g@, c, h@, k + 1)));
                } else {
                    assert(!segment_end(g@, k + 1));
                    assert(traversal_entries(g@, c, h@, k + 1) =~= traversal_entries(
                        g@,
                        c,
                        h@,
                        k as int,
                    ));
                }
            } else {
                assert(!segment_end(g@, k + 1));
                assert(traversal_entries(g@, c, h@, k + 1) =~= traversal_entries(
                    g@,
                    c,
                    h@,
                    k as int,
                ));
            }
            k += 1;
        }
        assert(g@.subrange(c + 1, k as int) =~= g@.subrange(c + 1, g@.len() as int));
        self.insert(slice_to_vec(g), slice_to_vec(host.as_slice()));
        host
    }

    /// Returns the host path of the requested guest path, if it has one.
    ///
    /// A guest path that is not mapped itself resolves through its nearest
    /// mapped parent directory; the directories in between and the path
    /// itself are then added to the map.
    pub fn get_host_path_bytes(&mut self, guest_path: &[u8]) -> (r: Option<Vec<u8>>)
        requires
            old(self).wf(),
        ensures
            final(self).wf(),
            match r {
                Some(h) => resolve(old(self)@, guest_path@) == Some(h@),
                None => resolve(old(self)@, guest_path@) == None::<Seq<u8>>,
            },
            final(self)@ == after_lookup(old(self)@, guest_path@),
            final(self).fd_set() == old(self).fd_set(),
            final(self).tempdir_path() == old(self).tempdir_path(),
    {
        if let Some(h) = self.lookup(guest_path) {
            return Some(h);
        }
        if self.files.len() == 0 {
            assert forall|k: Seq<u8>| !#[trigger] self@.contains_key(k) by {}
            assert(mapped_cut(self@, guest_path@, guest_path@.len() as int) == None::<int>) by {
                lemma_no_cut_in_empty(self@, guest_path@, guest_path@.len() as int);
            }
            return None;
        }
        let n = guest_path.len();
        let mut c: usize = n;
        while c > 0
            invariant
                self.wf(),
                c <= n,
                n == guest_path@.len(),
                !self@.contains_key(guest_path@),
                mapped_cut(self@, guest_path@, n as int) == mapped_cut(
                    self@,
                    guest_path@,
                    c as int,
                ),
                self@ == old(self)@,
                self.fd_set() == old(self).fd_set(),
                self.tempdir_path() == old(self).tempdir_path(),
            decreases c,
        {
            if guest_path[c - 1] == SLASH {
                let ancestor = slice_subrange(guest_path, 0, c - 1);
                if let Some(h) = self.lookup(ancestor) {
                    return Some(self.extend_and_cache(guest_path, c - 1, h));
                }
            }
            c -= 1;
        }
        None
    }

    /// Returns the host path of the requested guest path, if it has one,
    /// as `get_host_path_bytes` does for its bytes.
    pub fn get_host_path(&mut self, guest_path: &str) -> (r: Option<Vec<u8>>)
        requires
            old(self).wf(),
        ensures
            final(self).wf(),
            match r {
                Some(h) => resolve(old(self)@, encode_utf8(guest_path@)) == Some(h@),
                None => resolve(old(self)@, encode_utf8(guest_path@)) == None::<Seq<u8>>,
            },
            final(self)@ == after_lookup(old(self)@, encode_utf8(guest_path@)),
            final(self).fd_set() == old(self).fd_set(),
            final(self).tempdir_path() == old(self).tempdir_path(),
    {
        self.get_host_path_bytes(guest_path.as_bytes())
    }


    /// Creates the path map from parameters of the format
    /// `./host_path.txt:guest.txt`. `canonical_hosts[i]` is the canonical form
    /// of the host path of parameter `i` where the host could canonicalise it;
    /// the host path is kept verbatim otherwise. A later parameter for the same
    /// guest path replaces an earlier one. Temporary files go to `tempdir`.
    pub fn new(
        parameters: &Option<Vec<String>>,
        canonical_hosts: &Vec<Option<Vec<u8>>>,
        tempdir: &[u8],
    ) -> (r: UhyveFileMap)
        requires
            parameters matches Some(ps) ==> forall|i: int|
                0 <= i < ps@.len() ==> (#[trigger] split_spec(encode_utf8(ps@[i]@))) is Some,
        ensures
            r.wf(),
            built_from(r@, parameter_entries(*parameters, canonical_hosts@)),
            r.fd_set() == Set::<i32>::empty(),
            r.tempdir_path() == tempdir@,
    {
        let mut map = UhyveFileMap::empty(tempdir);
        let ghost entries = parameter_entries(*parameters, canonical_hosts@);
        match parameters {
            None => {
                assert(built_from(map@, entries));
            },
            Some(ps) => {
                let mut i: usize = 0;
                assert(entries.subrange(0, 0) =~= Seq::<(Seq<u8>, Seq<u8>)>::empty());
                while i < ps.len()
                    invariant
                        map.wf(),
                        i <= ps@.len(),
                        entries == parameter_entries(*parameters, canonical_hosts@),
                        entries.len() == ps@.len(),
                        *parameters == Some(*ps),
                        forall|j: int|
                            0 <= j < ps@.len() ==> (#[trigger] split_spec(
                                encode_utf8(ps@[j]@),
                            )) is Some,
                        built_from(map@, entries.subrange(0, i as int)),
                        map.fd_set() == Set::<i32>::empty(),
                        map.tempdir_path() == tempdir@,
                    decreases ps.len() - i,
                {
                    let ghost sp = split_spec(encode_utf8(ps@[i as int]@));
                    let (guest, host) = match split_guest_and_host_path(ps[i].as_str()) {
                        Some(pair) => pair,
                        None => {
                            assert(sp is Some);
                            return map;
                        },
                    };
                    let resolved = if i < canonical_hosts.len() {
                        match &canonical_hosts[i] {
                            Some(c) => slice_to_vec(c.as_slice()),
                            None => host,
                        }
                    } else {
                        host
                    };
                    assert(entries[i as int] == (guest@, resolved@));
                    let ghost before = map@;
                    map.insert(guest, resolved);
                    proof {
                        lemma_built_from_push(before, entries.subrange(0, i as int), entries[i as int].0, entries[i as int].1);
                        assert(entries.subrange(0, i as int).push(entries[i as int]) =~= entries.subrange(0, i + 1));
                    }
                    i += 1;
                }
                assert(entries.subrange(0, i as int) =~= entries);
            },
        }
        map
    }

    /// `tempdir/` followed by the last segment of `guest_path`.
    fn temporary_base(&self, guest_path: &[u8]) -> (r: Vec<u8>)
        ensures
            r@ == self.tempdir_path() + seq![SLASH] + final_name(guest_path@),
    {
        let n = guest_path.len();
        let mut s: usize = n;
        assert(guest_path@.subrange(0, n as int) =~= guest_path@);
        assert(guest_path@.subrange(n as int, n as int) =~= Seq::<u8>::empty());
        assert(final_name(guest_path@) =~= final_name(guest_path@) + Seq::<u8>::empty());
        while s > 0 && guest_path[s - 1] != SLASH
            invariant
                s <= n,
                n == guest_path@.len(),
                final_name(guest_path@) == final_name(guest_path@.subrange(0, s as int))
                    + guest_path@.subrange(s as int, n as int),
            decreases s,
        {
            let ghost pre = guest_path@.subrange(0, s as int);
            assert(pre.drop_last() =~= guest_path@.subrange(0, s - 1));
            assert(guest_path@.subrange(s - 1, n as int) =~= seq![guest_path@[s - 1]]
                + guest_path@.subrange(s as int, n as int));
            assert(final_name(guest_path@.subrange(0, s - 1)).push(guest_path@[s - 1])
                + guest_path@.subrange(s as int, n as int) =~= final_name(
                guest_path@.subrange(0, s - 1),
            ) + guest_path@.subrange(s - 1, n as int));
            s -= 1;
        }
        let mut host = slice_to_vec(self.tempdir.as_slice());
        host.push(SLASH);
        let mut i = s;
        while i < n
            invariant
                s <= i <= n,
                n == guest_path@.len(),
                host@ == self.tempdir@ + seq![SLASH] + guest_path@.subrange(s as int, i as int),
            decreases n - i,
        {
            host.push(guest_path[i]);
            assert(guest_path@.subrange(s as int, i + 1) =~= guest_path@.subrange(
                s as int,
                i as int,
            ).push(guest_path@[i as int]));
            i += 1;
        }
        assert(final_name(guest_path@.subrange(0, s as int)) =~= Seq::<u8>::empty());
        assert(final_name(guest_path@) =~= guest_path@.subrange(s as int, n as int));
        host
    }

    /// Whether some guest path maps to `host`.
    fn is_host_mapped(&self, host: &[u8]) -> (r: bool)
        requires
            self.wf(),
        ensures
            r == is_mapped_host(self@, host@),
    {
        let mut i: usize = 0;
        while i < self.files.len()
            invariant
                self.wf(),
                i <= self.files@.len(),
                forall|j: int| 0 <= j < i ==> (#[trigger] self.files@[j]).1@ != host@,
            decreases self.files.len() - i,
        {
            if bytes_eq(self.files[i].1.as_slice(), host) {
                assert(self@.contains_key(self.files@[i as int].0@));
                return true;
            }
            i += 1;
        }
        proof {
            assert forall|k: Seq<u8>| #[trigger] self@.contains_key(k) implies self@[k] != host@ by {
                let j = choose|j: int| 0 <= j < self.files@.len() && (#[trigger] self.files@[j]).0@ == k;
                assert(self.files@[j].1@ != host@);
            }
        }
        false
    }

    /// Length of the longest host path in the map.
    fn longest_host_path(&self) -> (r: usize)
        requires
            self.wf(),
            self.files@.len() > 0,
        ensures
            forall|k: Seq<u8>| #[trigger] self@.contains_key(k) ==> self@[k].len() <= r,
            exists|k: Seq<u8>| #[trigger] self@.contains_key(k) && self@[k].len() == r,
    {
        let mut longest = self.files[0].1.len();
        let mut i: usize = 1;
        assert(self@.contains_key(self.files@[0].0@));
        while i < self.files.len()
            invariant
                self.wf(),
                1 <= i <= self.files@.len(),
                forall|j: int| 0 <= j < i ==> (#[trigger] self.files@[j]).1@.len() <= longest,
                exists|j: int| 0 <= j < i && (#[trigger] self.files@[j]).1@.len() == longest,
            decreases self.files.len() - i,
        {
            if self.files[i].1.len() > longest {
                longest = self.files[i].1.len();
            }
            i += 1;
        }
        proof {
            assert forall|k: Seq<u8>| #[trigger] self@.contains_key(k) implies self@[k].len() <= longest by {
                let j = choose|j: int| 0 <= j < self.files@.len() && (#[trigger] self.files@[j]).0@ == k;
                assert(self.files@[j].1@.len() <= longest);
            }
            let j = choose|j: int| 0 <= j < i && (#[trigger] self.files@[j]).1@.len() == longest;
            assert(self@.contains_key(self.files@[j].0@));
        }
        longest
    }

    /// Maps `guest_path` to a fresh host path in the temporary directory and
    /// returns that host path: the directory followed by the last segment of
    /// the guest path, or, where another guest path already maps there, that
    /// name followed by `~`s until it is longer than every host path in the
    /// map.
    pub fn create_temporary_file(&mut self, guest_path: &[u8]) -> (r: Vec<u8>)
        requires
            old(self).wf(),
        ensures
            final(self).wf(),
            is_temporary_path(old(self)@, old(self).tempdir_path(), guest_path@, r@),
            forall|k: Seq<u8>| old(self)@.contains_key(k) ==> old(self)@[k] != r@,
            final(self)@ == old(self)@.insert(guest_path@, r@),
            final(self).fd_set() == old(self).fd_set(),
            final(self).tempdir_path() == old(self).tempdir_path(),
    {
        let ghost base_view = self.tempdir_path() + seq![SLASH] + final_name(guest_path@);
        let mut host = self.temporary_base(guest_path);
        let base_len = host.len();
        if self.is_host_mapped(host.as_slice()) {
            let ghost k0 = choose|k: Seq<u8>| self@.contains_key(k) && self@[k] == base_view;
            proof {
                let j = choose|j: int| 0 <= j < self.files@.len() && (#[trigger] self.files@[j]).0@ == k0;
                assert(self.files@.len() > 0);
            }
            let longest = self.longest_host_path();
            assert(self@.contains_key(k0));
            while host.len() <= longest
                invariant
                    base_len <= host@.len() <= longest + 1,
                    base_len == base_view.len(),
                    host@ == base_view + Seq::new((host@.len() - base_len) as nat, |i: int| TILDE),
                decreases longest + 1 - host@.len(),
            {
                host.push(TILDE);
                assert(host@ =~= base_view + Seq::new((host@.len() - base_len) as nat, |i: int| TILDE));
            }
        }
        self.insert(slice_to_vec(guest_path), slice_to_vec(host.as_slice()));
        host
    }

    /// Maps `guest_path` to `host_path` and returns the host path.
    pub fn append_file_and_return_cstring(&mut self, guest_path: &str, host_path: Vec<u8>) -> (r:
        Vec<u8>)
        requires
            old(self).wf(),
        ensures
            final(self).wf(),
            r@ == host_path@,
            final(self)@ == old(self)@.insert(encode_utf8(guest_path@), host_path@),
            final(self).fd_set() == old(self).fd_set(),
            final(self).tempdir_path() == old(self).tempdir_path(),
    {
        let r = slice_to_vec(host_path.as_slice());
        self.insert(slice_to_vec(guest_path.as_bytes()), host_path);
        r
    }

    /// Whether the guest may operate on host file descriptor `fd`.
    pub fn is_fd_present(&self, fd: i32) -> (r: bool)
        ensures
            r == self.fd_set().contains(fd),
    {
        let mut i: usize = 0;
        while i < self.fds.len()
            invariant
                i <= self.fds@.len(),
                forall|j: int| 0 <= j < i ==> self.fds@[j] != fd,
            decreases self.fds.len() - i,
        {
            if self.fds[i] == fd {
                assert(self.fds@.contains(fd));
                return true;
            }
            i += 1;
        }
        false
    }

    /// Lets the guest operate on host file descriptor `fd`. Failed opens
    /// (`fd < 0`) and the standard streams 0, 1 and 2 are never added.
    pub fn insert_fd(&mut self, fd: i32)
        ensures
            final(self).fd_set() == fd_set_after_open(old(self).fd_set(), fd),
            final(self)@ == old(self)@,
            old(self).wf() ==> final(self).wf(),
            final(self).tempdir_path() == old(self).tempdir_path(),
    {
        if fd > 2 && !self.is_fd_present(fd) {
            let ghost before = self.fds@;
            self.fds.push(fd);
            assert(self.fds@ == before.push(fd));
            assert forall|x: i32| #[trigger] self.fds@.contains(x) <==> before.contains(x) || x == fd by {
                if before.contains(x) {
                    let j = choose|j: int| 0 <= j < before.len() && before[j] == x;
                    assert(self.fds@[j] == x);
                }
                if x == fd {
                    assert(self.fds@[before.len() as int] == x);
                }
                if self.fds@.contains(x) && x != fd {
                    let j = choose|j: int| 0 <= j < self.fds@.len() && self.fds@[j] == x;
                    assert(before[j] == x);
                }
            }
            assert(self.fd_set() =~= before.to_set().insert(fd));
            assert(self.files@ == old(self).files@ && self.paths@ == old(self).paths@);
            assert(old(self).wf() ==> self.wf());
        } else if fd > 2 {
            assert(self.fd_set().insert(fd) =~= self.fd_set());
        }
    }

    /// Takes host file descriptor `fd` away from the guest.
    pub fn remove_fd(&mut self, fd: i32)
        ensures
            final(self).fd_set() == old(self).fd_set().remove(fd),
            final(self)@ == old(self)@,
            old(self).wf() ==> final(self).wf(),
            final(self).tempdir_path() == old(self).tempdir_path(),
    {
        let mut kept: Vec<i32> = Vec::new();
        let mut i: usize = 0;
        while i < self.fds.len()
            invariant
                i <= self.fds@.len(),
                forall|x: i32|
                    #[trigger] kept@.contains(x) <==> x != fd && self.fds@.subrange(
                        0,
                        i as int,
                    ).contains(x),
            decreases self.fds.len() - i,
        {
            let ghost before = kept@;
            let ghost pre = self.fds@.subrange(0, i as int);
            let ghost post = self.fds@.subrange(0, i + 1);
            assert(post == pre.push(self.fds@[i as int]));
            let v = self.fds[i];
            if v != fd {
                kept.push(v);
            }
            assert forall|x: i32| #[trigger] kept@.contains(x) <==> x != fd && post.contains(x) by {
                if post.contains(x) {
                    let j = choose|j: int| 0 <= j < post.len() && post[j] == x;
                    if j < i {
                        assert(pre[j] == x);
                    }
                }
                if pre.contains(x) {
                    let j = choose|j: int| 0 <= j < pre.len() && pre[j] == x;
                    assert(post[j] == x);
                }
                if kept@.contains(x) {
                    let j = choose|j: int| 0 <= j < kept@.len() && kept@[j] == x;
                    if j < before.len() {
                        assert(before[j] == x);
                    }
                }
                if before.contains(x) {
                    let j = choose|j: int| 0 <= j < before.len() && before[j] == x;
                    assert(kept@[j] == x);
                }
                if v != fd && x == v {
                    assert(kept@[before.len() as int] == x);
                    assert(post[i as int] == x);
                }
            }
            i += 1;
        }
        let ghost old_fds = self.fds@;
        assert(old_fds.subrange(0, i as int) =~= old_fds);
        self.fds = kept;
        assert(self.fd_set() =~= old_fds.to_set().remove(fd));
        assert(self.files@ == old(self).files@ && self.paths@ == old(self).paths@);
        assert(old(self).wf() ==> self.wf());
    }
}

proof fn lemma_no_cut_in_empty(m: Map<Seq<u8>, Seq<u8>>, g: Seq<u8>, hi: int)
    requires
        forall|k: Seq<u8>| !#[trigger] m.contains_key(k),
    ensures
        mapped_cut(m, g, hi) == None::<int>,
    decreases hi,
{
    if hi > 0 {
        lemma_no_cut_in_empty(m, g, hi - 1);
    }
}

/// The guest path and host path of each mapping parameter, the host path
/// taken from `canonical_hosts` where it holds one.
pub open spec fn parameter_entries(
    parameters: Option<Vec<String>>,
    canonical_hosts: Seq<Option<Vec<u8>>>,
) -> Seq<(Seq<u8>, Seq<u8>)> {
    match parameters {
        None => Seq::empty(),
        Some(ps) => Seq::new(
            ps@.len(),
            |i: int|
                mapping_entry(
                    encode_utf8(ps@[i]@),
                    if i < canonical_hosts.len() {
                        match canonical_hosts[i] {
                            Some(c) => Some(c@),
                            None => None,
                        }
                    } else {
                        None
                    },
                ),
        ),
    }
}

proof fn lemma_built_from_push(
    m: Map<Seq<u8>, Seq<u8>>,
    entries: Seq<(Seq<u8>, Seq<u8>)>,
    k: Seq<u8>,
    v: Seq<u8>,
)
    requires
        built_from(m, entries),
    ensures
        built_from(m.insert(k, v), entries.push((k, v))),
{
    let m2 = m.insert(k, v);
    let e2 = entries.push((k, v));
    assert forall|kk: Seq<u8>|
        m2.contains_key(kk) <==> exists|i: int| 0 <= i < e2.len() && #[trigger] e2[i].0 == kk by {
        if kk == k {
            assert(e2[entries.len() as int].0 == kk);
        } else {
            if m.contains_key(kk) {
                let i = choose|i: int| 0 <= i < entries.len() && #[trigger] entries[i].0 == kk;
                assert(e2[i].0 == kk);
            }
            if exists|i: int| 0 <= i < e2.len() && #[trigger] e2[i].0 == kk {
                let i = choose|i: int| 0 <= i < e2.len() && #[trigger] e2[i].0 == kk;
                assert(entries[i].0 == kk);
            }
        }
    }
    assert forall|i: int|
        0 <= i < e2.len() && (forall|j: int| i < j < e2.len() ==> #[trigger] e2[j].0 != e2[i].0)
            implies m2[e2[i].0] == #[trigger] e2[i].1 by {
        if i < entries.len() {
            assert(e2[entries.len() as int].0 != e2[i].0);
            assert forall|j: int| i < j < entries.len() implies #[trigger] entries[j].0
                != entries[i].0 by {
                assert(e2[j] == entries[j]);
            }
        }
    }
}

/// Each guest path given to the path map resolves to the host path given
/// with it, canonicalised where the host could canonicalise it, unless a
/// later parameter maps the same guest path.
pub proof fn lemma_mapped_paths_resolve(
    parameters: Option<Vec<String>>,
    canonical_hosts: Seq<Option<Vec<u8>>>,
    m: Map<Seq<u8>, Seq<u8>>,
    i: int,
)
    requires
        built_from(m, parameter_entries(parameters, canonical_hosts)),
        0 <= i < parameter_entries(parameters, canonical_hosts).len(),
        forall|j: int|
            i < j < parameter_entries(parameters, canonical_hosts).len() ==> (#[trigger] parameter_entries(
                parameters,
                canonical_hosts,
            )[j]).0 != parameter_entries(parameters, canonical_hosts)[i].0,
    ensures
        resolve(m, parameter_entries(parameters, canonical_hosts)[i].0) == Some(
            parameter_entries(parameters, canonical_hosts)[i].1,
        ),
{
    let e = parameter_entries(parameters, canonical_hosts);
    assert(m.contains_key(e[i].0));
    assert forall|j: int| i < j < e.len() implies #[trigger] e[j].0 != e[i].0 by {}
}

/// After a lookup of a path, the path is mapped to what it resolved to;
/// looking it up again gives the same result and leaves the map as it is.
pub proof fn lemma_lookup_caches(m: Map<Seq<u8>, Seq<u8>>, p: Seq<u8>)
    ensures
        resolve(m, p) matches Some(h) ==> after_lookup(m, p).contains_key(p) && after_lookup(
            m,
            p,
        )[p] == h,
        resolve(after_lookup(m, p), p) == resolve(m, p),
        after_lookup(after_lookup(m, p), p) == after_lookup(m, p),
{
}

} // verus!
