//! Storage of wallet updates: the `Persister` interface, a persister that keeps nothing, one
//! that keeps updates in memory, and the bookkeeping of one that keeps each update in a file
//! of a directory, named by its position.
//!
//! An update is handled here in its serialized form, as bytes.
use vstd::prelude::*;

use vstd::string::{StrSliceExecFns, StringSliceAdditionalSpecFns};
use vstd::utf8::encode_utf8;

use crate::consensus::{sha256, sha256_digest};
use crate::counter::{
    counter_parse, name_error, counter_string, lemma_counter_string, Counter, PERSISTED_FILE_NAME_LENGTH,
};
use crate::encoding::{
    ascii_bytes, hex_char, hex_lower, is_digit_char, law_hex_roundtrip, pow10, to_hex,
};
use crate::error::{IntErrorKind, WolletError};

verus! {

/// A place where updates are kept, in the order they were pushed.
pub trait Persister {
    /// The updates that iterating over the persister yields, in order.
    spec fn updates(&self) -> Seq<Seq<u8>>;

    /// Return the elements in the same order as they have been inserted
    fn iter(&self) -> (items: Vec<Result<Vec<u8>, WolletError>>)
        ensures
            items@.len() == self.updates().len(),
            forall|i: int|
                0 <= i < items@.len() ==> (#[trigger] items@[i] matches Ok(u) ==> u@
                    == self.updates()[i]),
    ;

    /// Push and persist an update. Returns the number of updates persisted
    ///
    /// Implementors are encouraged to coalesce consequent updates with `update.only_tip() == true`
    fn push(&mut self, update: Vec<u8>) -> (r: Result<usize, WolletError>)
        ensures
            r matches Ok(n) ==> n == final(self).updates().len(),
    ;
}

/// A persister that keeps nothing.
pub struct NoPersist {}

impl NoPersist {
    pub fn new() -> (p: Box<Self>)
        ensures
            p.updates() == Seq::<Seq<u8>>::empty(),
    {
        Box::new(Self {})
    }
}

impl Persister for NoPersist {
    open spec fn updates(&self) -> Seq<Seq<u8>> {
        Seq::empty()
    }

    fn iter(&self) -> (items: Vec<Result<Vec<u8>, WolletError>>)
        ensures
            items@.len() == 0,
    {
        Vec::new()
    }

    fn push(&mut self, _update: Vec<u8>) -> (r: Result<usize, WolletError>)
        ensures
            r == Ok::<usize, WolletError>(0),
    {
        Ok(0)
    }
}

/// A persister that keeps updates in memory.
pub struct MemoryPersister(pub Vec<Vec<u8>>);

impl MemoryPersister {
    pub fn new() -> (p: Box<Self>)
        ensures
            p.updates() == Seq::<Seq<u8>>::empty(),
    {
        let p = Box::new(Self(Vec::new()));
        assert(p.updates() =~= Seq::<Seq<u8>>::empty());
        p
    }
}

impl Persister for MemoryPersister {
    open spec fn updates(&self) -> Seq<Seq<u8>> {
        self.0@.map_values(|u: Vec<u8>| u@)
    }

    fn iter(&self) -> (items: Vec<Result<Vec<u8>, WolletError>>)
        ensures
            forall|i: int|
                0 <= i < items@.len() ==> (#[trigger] items@[i] matches Ok(u) && u@
                    == self.updates()[i]),
    {
        let mut items: Vec<Result<Vec<u8>, WolletError>> = Vec::new();
        let mut i: usize = 0;
        while i < self.0.len()
            invariant
                i <= self.0@.len(),
                items@.len() == i,
                forall|j: int|
                    0 <= j < i ==> (#[trigger] items@[j] matches Ok(u) && u@ == self.updates()[j]),
            decreases self.0@.len() - i,
        {
            let u = self.0[i].clone();
            assert(u@ =~= self.0@[i as int]@);
            items.push(Ok(u));
            i = i + 1;
        }
        items
    }

    fn push(&mut self, update: Vec<u8>) -> (r: Result<usize, WolletError>)
        ensures
            final(self).updates() == old(self).updates().push(update@),
            r == Ok::<usize, WolletError>(final(self).updates().len() as usize),
    {
        self.0.push(update);
        assert(self.updates() =~= old(self).updates().push(update@));
        Ok(self.0.len())
    }
}


/// The path `component` pushed onto the directory path `dir` (Unix rules): an absolute
/// component replaces the path, otherwise a `/` separates the two unless `dir` is empty or
/// already ends with one.
pub open spec fn joined_path(dir: Seq<char>, component: Seq<char>) -> Seq<char> {
    if component.len() > 0 && component[0] == '/' {
        component
    } else if dir.len() == 0 || dir.last() == '/' {
        dir + component
    } else {
        dir + seq!['/'] + component
    }
}

/// Pushes `component` onto the directory path `dir` (see `joined_path`).
pub fn join_path(dir: &str, component: &str) -> (p: String)
    ensures
        p@ == joined_path(dir@, component@),
{
    let clen = component.unicode_len();
    if clen > 0 && component.get_char(0) == '/' {
        return component.to_owned();
    }
    let mut p = dir.to_owned();
    let dlen = dir.unicode_len();
    if dlen > 0 && dir.get_char(dlen - 1) != '/' {
        proof {
            reveal_strlit("/");
        }
        p.append("/");
    }
    p.append(component);
    assert(p@ =~= joined_path(dir@, component@));
    p
}

/// The bytes of each file name.
pub open spec fn name_bytes(names: Seq<String>) -> Seq<Seq<u8>> {
    names.map_values(|s: String| encode_utf8(s@))
}

/// The first free position of a directory whose files have the names `names` (in listing
/// order): one past the largest counter among them, zero for none; the first name that is
/// not a counter gives its error.
pub open spec fn scan_names(names: Seq<Seq<u8>>) -> Result<nat, Option<IntErrorKind>>
    decreases names.len(),
{
    if names.len() == 0 {
        Ok(0)
    } else {
        match scan_names(names.drop_last()) {
            Err(e) => Err(e),
            Ok(m) => match counter_parse(names.last()) {
                Err(e) => Err(e),
                Ok(v) => Ok(if m >= v + 1 { m } else { (v + 1) as nat }),
            },
        }
    }
}

/// Whether scanning `names` never meets a counter whose successor overflows a `usize`
/// before meeting a name that is not a counter.
pub open spec fn scan_fits(names: Seq<Seq<u8>>) -> bool {
    forall|i: int|
        0 <= i < names.len() && scan_names(names.take(i)) is Ok ==> #[trigger] counter_parse(
            names[i],
        ) != Ok::<usize, Option<IntErrorKind>>(usize::MAX)
}

/// A persister that writes each update to a file of a directory, named by its position.
/// This holds the persister's state; reading and writing the files is left to the caller.
pub struct FsPersister {
    /// Directory where the data files will be written
    path: String,
    /// Next free position to write an update
    next: Counter,
}

impl FsPersister {
    /// The directory of the files.
    pub closed spec fn dir(&self) -> Seq<char> {
        self.path@
    }

    /// The number of updates persisted, which is the next free position.
    pub closed spec fn count(&self) -> nat {
        self.next.0 as nat
    }

    /// Creates a persister of updates over the directory `path`, whose regular files have
    /// the names `file_names` (in listing order).
    #[verifier::rlimit(40)]
    pub fn new(path: String, file_names: &Vec<String>) -> (r: Result<Box<Self>, WolletError>)
        requires
            scan_fits(name_bytes(file_names@)),
        ensures
            match scan_names(name_bytes(file_names@)) {
                Ok(n) => r matches Ok(p) && p.dir() == path@ && p.count() == n,
                Err(why) => r is Err && name_error(why, r->Err_0),
            },
    {
        let mut next = Counter::default();
        let mut i: usize = 0;
        while i < file_names.len()
            invariant
                i <= file_names@.len(),
                scan_fits(name_bytes(file_names@)),
                scan_names(name_bytes(file_names@).take(i as int)) == Ok::<nat, Option<IntErrorKind>>(
                    next.0 as nat,
                ),
            decreases file_names@.len() - i,
        {
            let ghost names = name_bytes(file_names@);
            assert(names.take(i + 1).drop_last() =~= names.take(i as int));
            assert(names.take(i + 1).last() == encode_utf8(file_names@[i as int]@));
            assert(names[i as int] == encode_utf8(file_names@[i as int]@));
            assert(counter_parse(names[i as int]) != Ok::<usize, Option<IntErrorKind>>(usize::MAX));
            let counter = match Counter::from_str(file_names[i].as_str()) {
                Ok(c) => c,
                Err(e) => {
                    proof {
                        lemma_scan_names_prefix_error(names, i + 1);
                    }
                    return Err(e);
                },
            };
            let following = counter + 1;
            if following.0 > next.0 {
                next = following;
            }
            i = i + 1;
        }
        assert(name_bytes(file_names@).take(i as int) =~= name_bytes(file_names@));
        Ok(Box::new(Self { path, next }))
    }

    /// Creates a persister of updates, from the given path create a network subdirectory with
    /// another subdirectory which name is one-way derived from the descriptor (see
    /// `desc_dir`); `file_names` are the names of the regular files of that directory.
    pub fn new_with_desc(path: &str, network: &str, desc: &str, file_names: &Vec<String>) -> (r:
        Result<Box<Self>, WolletError>)
        requires
            scan_fits(name_bytes(file_names@)),
        ensures
            match scan_names(name_bytes(file_names@)) {
                Ok(n) => r matches Ok(p) && p.dir() == desc_dir(path@, network@, desc.spec_bytes())
                    && p.count() == n,
                Err(why) => r is Err && name_error(why, r->Err_0),
            },
    {
        Self::new(Self::desc_path(path, network, desc), file_names)
    }

    /// The directory of the updates of the wallet with descriptor `desc` on `network`, under
    /// `path` (see `desc_dir`).
    pub fn desc_path(path: &str, network: &str, desc: &str) -> (p: String)
        ensures
            p@ == desc_dir(path@, network@, desc.spec_bytes()),
    {
        let network_dir = join_path(path, network);
        let digest = sha256(desc.as_bytes());
        let name = to_hex(digest.as_slice());
        join_path(network_dir.as_str(), name.as_str())
    }

    /// The path of the file of the update at position `counter`.
    pub fn path(&self, counter: &Counter) -> (p: String)
        ensures
            p@ == joined_path(self.dir(), counter_string(counter.0 as nat)),
    {
        let name = counter.to_string();
        join_path(self.path.as_str(), name.as_str())
    }

    /// The number of updates persisted.
    pub fn len(&self) -> (n: usize)
        ensures
            n == self.count(),
    {
        self.next.0
    }

    /// The path where the next pushed update is to be written.
    pub fn next_path(&self) -> (p: String)
        ensures
            p@ == joined_path(self.dir(), counter_string(self.count())),
    {
        self.path(&self.next)
    }

    /// Records the outcome of writing an update to `next_path`: on success the update is
    /// persisted and the number of persisted updates is returned, otherwise nothing changes
    /// and the write error is returned.
    pub fn push(&mut self, written: Result<usize, WolletError>) -> (r: Result<usize, WolletError>)
        requires
            written is Ok ==> old(self).count() < usize::MAX,
        ensures
            final(self).dir() == old(self).dir(),
            match written {
                Ok(_) => pushed_once(*old(self), *final(self)) && r == Ok::<usize, WolletError>(
                    final(self).count() as usize,
                ),
                Err(e) => final(self).count() == old(self).count() && r == Err::<usize, WolletError>(e),
            },
    {
        match written {
            Ok(_) => {
                self.next = Counter(self.next.0) + 1;
                Ok(self.next.0)
            },
            Err(e) => Err(e),
        }
    }

    /// An iterator over the persisted updates, from the first.
    pub fn iter(&self) -> (it: FsPersisterIter)
        ensures
            it.position() == 0,
    {
        FsPersisterIter { current: 0 }
    }
}

/// Once a prefix of the names has a name that is not a counter, the whole scan fails the same way.
proof fn lemma_scan_names_prefix_error(names: Seq<Seq<u8>>, i: int)
    requires
        0 <= i <= names.len(),
        scan_names(names.take(i)) is Err,
    ensures
        scan_names(names) == scan_names(names.take(i)),
    decreases names.len() - i,
{
    if i < names.len() {
        assert(names.take(i + 1).drop_last() =~= names.take(i));
        lemma_scan_names_prefix_error(names, i + 1);
    } else {
        assert(names.take(i) =~= names);
    }
}

/// The file that an iteration at position `pos` reads next, over a persister of `count`
/// updates in the directory `dir`: the file of that position, or none once all are read.
pub open spec fn read_target(dir: Seq<char>, count: nat, pos: nat) -> Option<Seq<char>> {
    if pos < count {
        Some(joined_path(dir, counter_string(pos)))
    } else {
        None
    }
}

/// The position of an iteration over the files of an `FsPersister`.
pub struct FsPersisterIter {
    current: usize,
}

impl FsPersisterIter {
    /// The position of the next update to read.
    pub closed spec fn position(&self) -> nat {
        self.current as nat
    }

    /// The file to read next, if any update is left.
    pub fn next_path(&self, persister: &FsPersister) -> (r: Option<String>)
        ensures
            match read_target(persister.dir(), persister.count(), self.position()) {
                Some(t) => (r matches Some(p) && p@ == t),
                None => r is None,
            },
    {
        if self.current < persister.next.0 {
            Some(persister.path(&Counter(self.current)))
        } else {
            None
        }
    }

    /// Gives the item that reading the file of `next_path` produced; the iteration moves on
    /// only when the read succeeded (a failed read is tried again on the next call).
    pub fn next(&mut self, persister: &FsPersister, read: Result<Vec<u8>, WolletError>) -> (r: Option<
        Result<Vec<u8>, WolletError>,
    >)
        ensures
            old(self).position() < persister.count() ==> {
                &&& r == Some(read)
                &&& final(self).position() == if read is Ok {
                    old(self).position() + 1
                } else {
                    old(self).position()
                }
            },
            old(self).position() >= persister.count() ==> r is None && final(self).position()
                == old(self).position(),
    {
        if self.current < persister.next.0 {
            if read.is_ok() {
                self.current = self.current + 1;
            }
            Some(read)
        } else {
            None
        }
    }

    /// The bounds of the number of items, which is the number of persisted updates.
    pub fn size_hint(&self, persister: &FsPersister) -> (r: (usize, Option<usize>))
        ensures
            r == (persister.count() as usize, Some(persister.count() as usize)),
    {
        let l = persister.next.0;
        (l, Some(l))
    }
}


/// The directory of the updates of a wallet: under `path`, the network's name, then the
/// lowercase hexadecimal SHA-256 digest of the bytes of the descriptor's text.
pub open spec fn desc_dir(path: Seq<char>, network: Seq<char>, desc: Seq<u8>) -> Seq<char> {
    joined_path(joined_path(path, network), hex_lower(sha256_digest(desc)))
}

/// When every file name is a counter, the scan gives one past the largest counter (zero when
/// there is no file).
proof fn lemma_scan_names_max(names: Seq<Seq<u8>>)
    requires
        forall|k: int| 0 <= k < names.len() ==> #[trigger] counter_parse(names[k]) is Ok,
    ensures
        scan_names(names) is Ok,
        forall|k: int|
            0 <= k < names.len() ==> counter_parse(#[trigger] names[k])->Ok_0 + 1 <= scan_names(
                names,
            )->Ok_0,
        names.len() == 0 ==> scan_names(names)->Ok_0 == 0,
        names.len() > 0 ==> exists|k: int|
            0 <= k < names.len() && scan_names(names)->Ok_0 == counter_parse(#[trigger] names[k])->Ok_0
                + 1,
    decreases names.len(),
{
    if names.len() > 0 {
        let init = names.drop_last();
        assert forall|k: int| 0 <= k < init.len() implies #[trigger] counter_parse(init[k]) is Ok by {
            assert(init[k] == names[k]);
        }
        lemma_scan_names_max(init);
        let last = names.len() - 1;
        assert(counter_parse(names[last]) is Ok);
        let m = scan_names(names)->Ok_0;
        assert forall|k: int| 0 <= k < names.len() implies counter_parse(#[trigger] names[k])->Ok_0
            + 1 <= m by {
            if k < last {
                assert(init[k] == names[k]);
            }
        }
        if init.len() > 0 {
            let k0 = choose|k: int|
                0 <= k < init.len() && scan_names(init)->Ok_0 == counter_parse(
                    #[trigger] init[k],
                )->Ok_0 + 1;
            assert(init[k0] == names[k0]);
        } else {
            assert(m == counter_parse(names[last])->Ok_0 + 1);
        }
    }
}

/// Reopening a directory that holds the files of the first `n` positions, listed in any
/// order, finds `n` persisted updates: the next update goes after them.
pub proof fn law_reopen_counts_files(names: Seq<Seq<u8>>, positions: Seq<usize>, n: usize)
    requires
        n <= pow10(PERSISTED_FILE_NAME_LENGTH as nat),
        names.len() == positions.len(),
        forall|k: int|
            0 <= k < names.len() ==> #[trigger] positions[k] < n && names[k] == ascii_bytes(
                counter_string(positions[k] as nat),
            ),
        forall|i: usize| i < n ==> #[trigger] positions.contains(i),
    ensures
        scan_names(names) == Ok::<nat, Option<IntErrorKind>>(n as nat),
{
    assert forall|k: int| 0 <= k < names.len() implies #[trigger] counter_parse(names[k])
        == Ok::<usize, Option<IntErrorKind>>(positions[k]) by {
        assert(positions[k] < n);
        lemma_counter_string(positions[k]);
    }
    lemma_scan_names_max(names);
    let m = scan_names(names)->Ok_0;
    if n > 0 {
        let top = (n - 1) as usize;
        assert(positions.contains(top));
        let k = choose|k: int| 0 <= k < positions.len() && positions[k] == top;
        assert(counter_parse(names[k])->Ok_0 + 1 <= m);
        if names.len() > 0 {
            let j = choose|j: int|
                0 <= j < names.len() && m == counter_parse(#[trigger] names[j])->Ok_0 + 1;
            assert(positions[j] < n);
        }
    } else {
        if names.len() > 0 {
            assert(positions[0] < n);
        }
    }
}

/// Different positions below `10^PERSISTED_FILE_NAME_LENGTH` have different files: no
/// persisted update overwrites another.
pub proof fn law_positions_have_distinct_files(dir: Seq<char>, i: usize, j: usize)
    requires
        i != j,
        i < pow10(PERSISTED_FILE_NAME_LENGTH as nat),
        j < pow10(PERSISTED_FILE_NAME_LENGTH as nat),
    ensures
        joined_path(dir, counter_string(i as nat)) != joined_path(dir, counter_string(j as nat)),
{
    lemma_counter_string(i);
    lemma_counter_string(j);
    let a = counter_string(i as nat);
    let b = counter_string(j as nat);
    assert(is_digit_char(a[0]) && is_digit_char(b[0]));
    let prefix = if dir.len() == 0 || dir.last() == '/' {
        dir
    } else {
        dir + seq!['/']
    };
    assert(joined_path(dir, a) =~= prefix + a);
    assert(joined_path(dir, b) =~= prefix + b);
    if joined_path(dir, a) == joined_path(dir, b) {
        assert(a =~= (prefix + a).subrange(prefix.len() as int, (prefix + a).len() as int));
        assert(b =~= (prefix + b).subrange(prefix.len() as int, (prefix + b).len() as int));
        assert(a == b);
    }
}


/// Whether `after` is `before` with one more update persisted, as a successful
/// `FsPersister::push` leaves it.
pub open spec fn pushed_once(before: FsPersister, after: FsPersister) -> bool {
    &&& after.dir() == before.dir()
    &&& after.count() == before.count() + 1
}

/// The file that an iteration reads at a position is the file that the push at that position
/// wrote: a successful push from `before` (which wrote to `before.next_path()`) leaves a
/// persister on which an iteration at that position reads that same file, while one position
/// further there is nothing left to read.
pub proof fn law_iteration_reads_pushed_files(before: FsPersister, after: FsPersister)
    requires
        pushed_once(before, after),
    ensures
        read_target(after.dir(), after.count(), before.count()) == Some(
            joined_path(before.dir(), counter_string(before.count())),
        ),
        read_target(after.dir(), after.count(), before.count() + 1) is None,
{
}


/// The files of the directory `dir` after updates `updates` were pushed, in order, onto a
/// persister that started empty there: the push of the update at position `k` wrote it to
/// the path of `k` (`FsPersister::next_path` while the count is `k`; a successful
/// `FsPersister::push` then moves the count to `k + 1`).
pub open spec fn files_after_pushes(dir: Seq<char>, updates: Seq<Seq<u8>>) -> Map<
    Seq<char>,
    Seq<u8>,
>
    decreases updates.len(),
{
    if updates.len() == 0 {
        Map::empty()
    } else {
        files_after_pushes(dir, updates.drop_last()).insert(
            joined_path(dir, counter_string((updates.len() - 1) as nat)),
            updates.last(),
        )
    }
}

/// The files an iteration reads, in order, from position `pos` on, over a persister of
/// `count` updates in `dir`, when every read succeeds (`FsPersisterIter::next_path` gives the
/// file, and `FsPersisterIter::next` moves one position on after a successful read).
pub open spec fn iteration_reads(dir: Seq<char>, count: nat, pos: nat) -> Seq<Seq<char>>
    decreases count - pos,
{
    match read_target(dir, count, pos) {
        Some(t) => seq![t] + iteration_reads(dir, count, pos + 1),
        None => Seq::empty(),
    }
}

/// An iteration from `pos` reads the files of positions `pos`, `pos + 1`, ... up to the count.
proof fn lemma_iteration_reads(dir: Seq<char>, count: nat, pos: nat)
    requires
        pos <= count,
    ensures
        iteration_reads(dir, count, pos).len() == count - pos,
        forall|k: int|
            0 <= k < count - pos ==> #[trigger] iteration_reads(dir, count, pos)[k] == joined_path(
                dir,
                counter_string((pos + k) as nat),
            ),
    decreases count - pos,
{
    if pos < count {
        lemma_iteration_reads(dir, count, pos + 1);
        assert forall|k: int| 0 <= k < count - pos implies #[trigger] iteration_reads(
            dir,
            count,
            pos,
        )[k] == joined_path(dir, counter_string((pos + k) as nat)) by {
            if k > 0 {
                assert(iteration_reads(dir, count, pos)[k] == iteration_reads(dir, count, pos + 1)[k
                    - 1]);
            }
        }
    }
}

/// After the pushes, the file of each position holds the update pushed there.
proof fn lemma_files_after_pushes(dir: Seq<char>, updates: Seq<Seq<u8>>)
    requires
        updates.len() <= pow10(PERSISTED_FILE_NAME_LENGTH as nat),
        updates.len() <= usize::MAX,
    ensures
        forall|k: int|
            0 <= k < updates.len() ==> #[trigger] files_after_pushes(dir, updates).contains_key(
                joined_path(dir, counter_string(k as nat)),
            ) && files_after_pushes(dir, updates)[joined_path(dir, counter_string(k as nat))]
                == updates[k],
    decreases updates.len(),
{
    if updates.len() > 0 {
        let init = updates.drop_last();
        let last = updates.len() - 1;
        lemma_files_after_pushes(dir, init);
        assert forall|k: int| 0 <= k < updates.len() implies #[trigger] files_after_pushes(
            dir,
            updates,
        ).contains_key(joined_path(dir, counter_string(k as nat))) && files_after_pushes(
            dir,
            updates,
        )[joined_path(dir, counter_string(k as nat))] == updates[k] by {
            if k < last {
                law_positions_have_distinct_files(dir, k as usize, last as usize);
                assert(init[k] == updates[k]);
                assert(files_after_pushes(dir, init).contains_key(
                    joined_path(dir, counter_string(k as nat)),
                ));
            }
        }
    }
}

/// Pushing updates onto an empty file persister, then reopening its directory and iterating
/// with every read succeeding, gives back exactly the pushed updates, in the order they were
/// pushed: the reopened persister counts them all, the iteration reads one file per update
/// and then stops, and each file read holds the update pushed at that position.
pub proof fn law_reopened_iteration_yields_pushed_updates(dir: Seq<char>, updates: Seq<Seq<u8>>)
    requires
        updates.len() <= pow10(PERSISTED_FILE_NAME_LENGTH as nat),
        updates.len() <= usize::MAX,
    ensures
        scan_names(
            Seq::new(updates.len(), |k: int| ascii_bytes(counter_string(k as nat))),
        ) == Ok::<nat, Option<IntErrorKind>>(updates.len()),
        iteration_reads(dir, updates.len(), 0).len() == updates.len(),
        forall|k: int|
            0 <= k < updates.len() ==> files_after_pushes(dir, updates).contains_key(
                #[trigger] iteration_reads(dir, updates.len(), 0)[k],
            ),
        forall|k: int|
            0 <= k < updates.len() ==> files_after_pushes(dir, updates)[#[trigger] iteration_reads(
                dir,
                updates.len(),
                0,
            )[k]] == updates[k],
{
    let n = updates.len();
    let names = Seq::new(n, |k: int| ascii_bytes(counter_string(k as nat)));
    let positions = Seq::new(n, |k: int| k as usize);
    assert forall|i: usize| i < n implies #[trigger] positions.contains(i) by {
        assert(positions[i as int] == i);
    }
    law_reopen_counts_files(names, positions, n as usize);
    lemma_iteration_reads(dir, n, 0);
    lemma_files_after_pushes(dir, updates);
    assert forall|k: int| 0 <= k < updates.len() implies files_after_pushes(dir, updates).contains_key(
        #[trigger] iteration_reads(dir, updates.len(), 0)[k],
    ) && files_after_pushes(dir, updates)[iteration_reads(dir, updates.len(), 0)[k]] == updates[k] by {
        assert(iteration_reads(dir, n, 0)[k] == joined_path(dir, counter_string((0 + k) as nat)));
        assert((0 + k) as nat == k as nat);
        assert(files_after_pushes(dir, updates).contains_key(
            joined_path(dir, counter_string(k as nat)),
        ));
    }
}


/// Whether the text `s` holds no `/`.
pub open spec fn no_slash(s: Seq<char>) -> bool {
    forall|i: int| 0 <= i < s.len() ==> #[trigger] s[i] != '/'
}

/// The store directory is the prefix of the base path, then the network, a `/`, and the
/// digest's hexadecimal form.
proof fn lemma_desc_dir_shape(path: Seq<char>, network: Seq<char>, desc: Seq<u8>)
    requires
        network.len() > 0,
        no_slash(network),
    ensures
        desc_dir(path, network, desc) == (if path.len() == 0 || path.last() == '/' {
            path
        } else {
            path + seq!['/']
        }) + network + seq!['/'] + hex_lower(sha256_digest(desc)),
        no_slash(hex_lower(sha256_digest(desc))),
{
    let h = hex_lower(sha256_digest(desc));
    assert forall|i: int| 0 <= i < h.len() implies #[trigger] h[i] != '/' by {
        let b = sha256_digest(desc)[i / 2];
        let d = if i % 2 == 0 { (b / 16) as int } else { (b % 16) as int };
        assert(h[i] == hex_char(d));
        assert(hex_char(d) as int != 47);
    }
    let prefix = if path.len() == 0 || path.last() == '/' {
        path
    } else {
        path + seq!['/']
    };
    let j1 = joined_path(path, network);
    assert(network[0] != '/');
    assert(j1 =~= prefix + network);
    assert(j1.last() == network.last());
    assert(network.last() != '/');
    assert(joined_path(j1, h) =~= prefix + network + seq!['/'] + h);
}

/// The stores of two wallets share a directory only when their networks are the same and
/// their descriptors have the same SHA-256 digest (for network names that are not empty and
/// hold no `/`): updates of one (network, descriptor) pair never land in another pair's store
/// unless the digests collide.
pub proof fn law_distinct_wallets_have_distinct_stores(
    path: Seq<char>,
    network1: Seq<char>,
    desc1: Seq<u8>,
    network2: Seq<char>,
    desc2: Seq<u8>,
)
    requires
        network1.len() > 0,
        network2.len() > 0,
        no_slash(network1),
        no_slash(network2),
        desc_dir(path, network1, desc1) == desc_dir(path, network2, desc2),
    ensures
        network1 == network2,
        sha256_digest(desc1) == sha256_digest(desc2),
{
    lemma_desc_dir_shape(path, network1, desc1);
    lemma_desc_dir_shape(path, network2, desc2);
    let prefix = if path.len() == 0 || path.last() == '/' {
        path
    } else {
        path + seq!['/']
    };
    let h1 = hex_lower(sha256_digest(desc1));
    let h2 = hex_lower(sha256_digest(desc2));
    let t1 = network1 + seq!['/'] + h1;
    let t2 = network2 + seq!['/'] + h2;
    let d = desc_dir(path, network1, desc1);
    assert(t1 =~= d.skip(prefix.len() as int));
    assert(t2 =~= d.skip(prefix.len() as int));
    assert(t1 == t2);
    let k1 = network1.len() as int;
    let k2 = network2.len() as int;
    if k1 < k2 {
        assert(t1[k1] == '/');
        assert(t2[k1] == network2[k1]);
    }
    if k2 < k1 {
        assert(t2[k2] == '/');
        assert(t1[k2] == network1[k2]);
    }
    assert(k1 == k2);
    assert(network1 =~= t1.take(k1));
    assert(network2 =~= t2.take(k2));
    assert(h1 =~= t1.skip(k1 + 1));
    assert(h2 =~= t2.skip(k2 + 1));
    law_hex_roundtrip(sha256_digest(desc1));
    law_hex_roundtrip(sha256_digest(desc2));
}

/// The file of a counter below `10^PERSISTED_FILE_NAME_LENGTH` ends with the counter's name,
/// and that name reads back as the counter: what a write names is what reopening parses.
pub proof fn law_path_name_reads_back(dir: Seq<char>, n: usize)
    requires
        n < pow10(PERSISTED_FILE_NAME_LENGTH as nat),
    ensures
        ({
            let p = joined_path(dir, counter_string(n as nat));
            &&& p.len() >= PERSISTED_FILE_NAME_LENGTH
            &&& p.skip(p.len() - PERSISTED_FILE_NAME_LENGTH) == counter_string(n as nat)
            &&& counter_parse(ascii_bytes(p.skip(p.len() - PERSISTED_FILE_NAME_LENGTH)))
                == Ok::<usize, Option<IntErrorKind>>(n)
        }),
{
    lemma_counter_string(n);
    let cs = counter_string(n as nat);
    assert(is_digit_char(cs[0]));
    let p = joined_path(dir, cs);
    assert(p.skip(p.len() - PERSISTED_FILE_NAME_LENGTH) =~= cs);
}

} // verus!
