//! Paths: from the root directory down, one name at a time.

use crate::attribute::{select, Attribute, INDEX_ALLOCATION, INDEX_ROOT};
use crate::attribute_list::{full_reference_result, open_complete};
use crate::disk::DiskAccessor;
use crate::error::NtfsError;
use crate::index::{lookup_result, IndexWalker, WalkerView};
use crate::mft::{record_result, reference_result, MftReader, MftView, ROOT_SEGMENT};
use crate::record::{flags_directory, FileReference};
use vstd::prelude::*;

verus! {

/// What a volume is to the proofs: the bytes of the device, the master
/// file table found on it, and the geometry and order of names by which
/// directories are searched.
pub ghost struct VolumeView {
    pub image: Seq<u8>,
    pub mft: MftView,
    pub walker: WalkerView,
}

/// Whether `unit` parts the names of a path: a slash or a backslash.
pub open spec fn is_separator(unit: u16) -> bool {
    unit == 0x2F || unit == 0x5C
}

/// The name of the index of file names in a directory: `$I30`.
pub open spec fn index_name() -> Seq<u16> {
    seq![0x24u16, 0x49u16, 0x33u16, 0x30u16]
}

/// `name` as a list of names: empty where `name` is.
pub open spec fn name_if_any(name: Seq<u16>) -> Seq<Seq<u16>> {
    if name.len() > 0 {
        seq![name]
    } else {
        Seq::empty()
    }
}

/// The names in `path` from unit `pos` on, where `current` holds the
/// units of the name that `pos` stands in.
pub open spec fn split_from(path: Seq<u16>, pos: int, current: Seq<u16>) -> Seq<Seq<u16>>
    decreases path.len() - pos,
{
    if pos < 0 || pos >= path.len() {
        name_if_any(current)
    } else if is_separator(path[pos]) {
        name_if_any(current) + split_from(path, pos + 1, Seq::empty())
    } else {
        split_from(path, pos + 1, current.push(path[pos]))
    }
}

/// The names that `path` is made of, in order. Separators at either end
/// and separators that follow one another part no names.
pub open spec fn split_path(path: Seq<u16>) -> Seq<Seq<u16>> {
    split_from(path, 0, Seq::empty())
}

/// The file that bears `name` in the directory that `current` points to.
/// What `current` points to must be a directory; its index is looked for
/// among the attributes of its whole record.
#[verifier::opaque]
pub open spec fn step_result(vol: VolumeView, current: FileReference, name: Seq<u16>) -> Result<
    FileReference,
    NtfsError,
> {
    match full_reference_result(vol.image, vol.mft, current) {
        Err(e) => Err(e),
        Ok(record) => if !flags_directory(record.flags) {
            Err(NtfsError::NotADirectory)
        } else {
            match select(record.attributes, INDEX_ROOT, index_name()) {
                None => Err(NtfsError::AttributeNotFound),
                Some(root) => match lookup_result(
                    vol.image,
                    vol.walker.table,
                    vol.walker.cluster_size,
                    vol.walker.sector_size,
                    root,
                    select(record.attributes, INDEX_ALLOCATION, index_name()),
                    name,
                ) {
                    Err(e) => Err(e),
                    Ok(None) => Err(NtfsError::PathNotFound),
                    Ok(Some(reference)) => Ok(reference),
                },
            }
        }
    }
}

/// The file reached from `current` by going down through `names`. The
/// reference that is returned points to a record that is in use and bears
/// the reference's sequence number.
pub open spec fn resolve_names(
    vol: VolumeView,
    current: FileReference,
    names: Seq<Seq<u16>>,
) -> Result<FileReference, NtfsError>
    decreases names.len(),
{
    if names.len() == 0 {
        match reference_result(vol.image, vol.mft, current) {
            Err(e) => Err(e),
            Ok(_) => Ok(current),
        }
    } else {
        match step_result(vol, current, names[0]) {
            Err(e) => Err(e),
            Ok(next) => resolve_names(vol, next, names.drop_first()),
        }
    }
}

/// The index of the name at which going down through `names` fails: the
/// number of steps that succeed. Where all of them do, it is the number
/// of names.
pub open spec fn failing_component(
    vol: VolumeView,
    current: FileReference,
    names: Seq<Seq<u16>>,
) -> nat
    decreases names.len(),
{
    if names.len() == 0 {
        0
    } else {
        match step_result(vol, current, names[0]) {
            Err(_) => 0,
            Ok(next) => 1 + failing_component(vol, next, names.drop_first()),
        }
    }
}

/// The file that `path` leads to from the directory `start`.
pub open spec fn resolve_from_result(
    vol: VolumeView,
    start: FileReference,
    path: Seq<u16>,
) -> Result<FileReference, NtfsError> {
    resolve_names(vol, start, split_path(path))
}

/// The reference to the root directory: its segment, with the sequence
/// number that its record bears.
pub open spec fn root_result(vol: VolumeView) -> Result<FileReference, NtfsError> {
    match record_result(vol.image, vol.mft, ROOT_SEGMENT) {
        Err(e) => Err(e),
        Ok(record) => Ok(record.reference),
    }
}

/// The file that `path` leads to from the root directory.
#[verifier::opaque]
pub open spec fn resolve_result(vol: VolumeView, path: Seq<u16>) -> Result<
    FileReference,
    NtfsError,
> {
    match root_result(vol) {
        Err(e) => Err(e),
        Ok(root) => resolve_from_result(vol, root, path),
    }
}

/// Whether `name` can be a name of a path: not empty, and without a
/// separator.
pub open spec fn is_proper_name(name: Seq<u16>) -> bool {
    &&& name.len() > 0
    &&& forall|i: int| 0 <= i < name.len() ==> !is_separator(#[trigger] name[i])
}

/// The names that a path is split into are not empty and hold no
/// separator.
pub proof fn lemma_split_names_are_proper(path: Seq<u16>)
    ensures
        forall|k: int|
            0 <= k < split_path(path).len() ==> is_proper_name(#[trigger] split_path(path)[k]),
{
    lemma_split_from_proper(path, 0, Seq::empty());
}

proof fn lemma_split_from_proper(path: Seq<u16>, pos: int, current: Seq<u16>)
    requires
        0 <= pos,
        forall|i: int| 0 <= i < current.len() ==> !is_separator(#[trigger] current[i]),
    ensures
        forall|k: int|
            0 <= k < split_from(path, pos, current).len() ==> is_proper_name(
                #[trigger] split_from(path, pos, current)[k],
            ),
    decreases path.len() - pos,
{
    let names = split_from(path, pos, current);
    if pos < path.len() {
        if is_separator(path[pos]) {
            let rest = split_from(path, pos + 1, Seq::empty());
            lemma_split_from_proper(path, pos + 1, Seq::empty());
            assert forall|k: int| 0 <= k < names.len() implies is_proper_name(
                #[trigger] names[k],
            ) by {
                if current.len() > 0 {
                    if k > 0 {
                        assert(names[k] == rest[k - 1]);
                    } else {
                        assert(names[k] == current);
                    }
                } else {
                    assert(names[k] == rest[k]);
                }
            }
        } else {
            let longer = current.push(path[pos]);
            assert forall|i: int| 0 <= i < longer.len() implies !is_separator(
                #[trigger] longer[i],
            ) by {
                if i < current.len() {
                    assert(longer[i] == current[i]);
                }
            }
            lemma_split_from_proper(path, pos + 1, longer);
            assert(names == split_from(path, pos + 1, longer));
        }
    } else {
        assert forall|k: int| 0 <= k < names.len() implies is_proper_name(#[trigger] names[k]) by {
            assert(names[k] == current);
        }
    }
}

/// The names of a path that goes on behind a prefix are the names of what
/// goes on.
pub proof fn lemma_split_shift(prefix: Seq<u16>, rest: Seq<u16>, pos: int, current: Seq<u16>)
    requires
        0 <= pos <= rest.len(),
    ensures
        split_from(prefix + rest, prefix.len() + pos, current) == split_from(rest, pos, current),
    decreases rest.len() - pos,
{
    if pos < rest.len() {
        assert((prefix + rest)[prefix.len() + pos] == rest[pos]);
        if is_separator(rest[pos]) {
            lemma_split_shift(prefix, rest, pos + 1, Seq::empty());
        } else {
            lemma_split_shift(prefix, rest, pos + 1, current.push(rest[pos]));
        }
    }
}

/// The names of two paths joined by a separator are the names of the first
/// and the names of the second.
pub proof fn lemma_split_joined(first: Seq<u16>, separator: u16, second: Seq<u16>)
    requires
        is_separator(separator),
    ensures
        split_path(first + seq![separator] + second) == split_path(first) + split_path(second),
{
    lemma_split_joined_from(first, separator, second, 0, Seq::empty());
}

proof fn lemma_split_joined_from(
    first: Seq<u16>,
    separator: u16,
    second: Seq<u16>,
    pos: int,
    current: Seq<u16>,
)
    requires
        is_separator(separator),
        0 <= pos <= first.len(),
    ensures
        split_from(first + seq![separator] + second, pos, current) == split_from(
            first,
            pos,
            current,
        ) + split_path(second),
    decreases first.len() - pos,
{
    let joined = first + seq![separator] + second;
    if pos < first.len() {
        assert(joined[pos] == first[pos]);
        if is_separator(first[pos]) {
            lemma_split_joined_from(first, separator, second, pos + 1, Seq::empty());
            assert(name_if_any(current) + (split_from(first, pos + 1, Seq::empty()) + split_path(
                second,
            )) =~= (name_if_any(current) + split_from(first, pos + 1, Seq::empty())) + split_path(
                second,
            ));
        } else {
            lemma_split_joined_from(first, separator, second, pos + 1, current.push(first[pos]));
        }
    } else {
        assert(joined[pos] == separator);
        lemma_split_shift(first + seq![separator], second, 0, Seq::empty());
    }
}

/// A step from a reference that cannot be opened fails as opening it
/// fails.
pub proof fn lemma_step_opens(vol: VolumeView, current: FileReference, name: Seq<u16>)
    ensures
        reference_result(vol.image, vol.mft, current) matches Err(e) ==> step_result(
            vol,
            current,
            name,
        ) == Err::<FileReference, NtfsError>(e),
{
    reveal(step_result);
}

/// Going down through two lists of names one after the other leads where
/// going down through both at once leads.
pub proof fn lemma_resolve_names_composes(
    vol: VolumeView,
    start: FileReference,
    first: Seq<Seq<u16>>,
    second: Seq<Seq<u16>>,
)
    ensures
        resolve_names(vol, start, first + second) == match resolve_names(vol, start, first) {
            Err(e) => Err(e),
            Ok(middle) => resolve_names(vol, middle, second),
        },
    decreases first.len(),
{
    if first.len() == 0 {
        assert(first + second =~= second);
        if second.len() > 0 {
            lemma_step_opens(vol, start, second[0]);
        }
    } else {
        assert((first + second).drop_first() =~= first.drop_first() + second);
        assert((first + second)[0] == first[0]);
        match step_result(vol, start, first[0]) {
            Err(e) => {},
            Ok(next) => {
                lemma_resolve_names_composes(vol, next, first.drop_first(), second);
            },
        }
    }
}

/// Resolving a path made of two parts is resolving the first part, and
/// the second from where the first led: `a/b/c` leads from the root where
/// `c` leads from where `b` leads from where `a` leads.
pub proof fn lemma_resolve_composes(
    vol: VolumeView,
    start: FileReference,
    first: Seq<u16>,
    separator: u16,
    second: Seq<u16>,
)
    requires
        is_separator(separator),
    ensures
        resolve_from_result(vol, start, first + seq![separator] + second)
            == match resolve_from_result(vol, start, first) {
            Err(e) => Err(e),
            Ok(middle) => resolve_from_result(vol, middle, second),
        },
{
    lemma_split_joined(first, separator, second);
    lemma_resolve_names_composes(vol, start, split_path(first), split_path(second));
}

/// Resolving a path of two parts from the root is resolving the first
/// part from the root, and the second from where the first led.
pub proof fn lemma_resolve_composes_from_root(
    vol: VolumeView,
    first: Seq<u16>,
    separator: u16,
    second: Seq<u16>,
)
    requires
        is_separator(separator),
    ensures
        resolve_result(vol, first + seq![separator] + second) == match resolve_result(vol, first) {
            Err(e) => Err(e),
            Ok(middle) => resolve_from_result(vol, middle, second),
        },
{
    reveal(resolve_result);
    if root_result(vol) is Ok {
        lemma_resolve_composes(vol, root_result(vol).unwrap(), first, separator, second);
    }
}

/// A path never resolves to a record that is not in use, nor to one that
/// has outlived the reference: what a path resolves to can be opened, is
/// in use, and bears the sequence number of the reference.
pub proof fn lemma_resolved_in_use(vol: VolumeView, path: Seq<u16>)
    ensures
        resolve_result(vol, path) matches Ok(found) ==> {
            &&& reference_result(vol.image, vol.mft, found) matches Ok(record)
            &&& crate::record::flags_in_use(record.flags)
            &&& record.reference == found
        },
{
    reveal(resolve_result);
    if resolve_result(vol, path) is Ok {
        lemma_resolved_is_live(vol, root_result(vol).unwrap(), split_path(path));
        crate::mft::lemma_stale_reference(vol.image, vol.mft, resolve_result(vol, path).unwrap());
    }
}

/// A path that resolves leads to a record that is in use and whose
/// sequence number is that of the reference returned.
pub proof fn lemma_resolved_is_live(vol: VolumeView, start: FileReference, names: Seq<Seq<u16>>)
    requires
        resolve_names(vol, start, names) is Ok,
    ensures
        reference_result(vol.image, vol.mft, resolve_names(vol, start, names).unwrap()) is Ok,
    decreases names.len(),
{
    if names.len() > 0 {
        lemma_resolved_is_live(vol, step_result(vol, start, names[0]).unwrap(), names.drop_first());
    }
}

/// The views of the names in `names`.
pub open spec fn name_views(names: Seq<Vec<u16>>) -> Seq<Seq<u16>> {
    names.map_values(|n: Vec<u16>| n@)
}

/// Splits a path into its names.
pub fn split(path: &[u16]) -> (names: Vec<Vec<u16>>)
    ensures
        name_views(names@) == split_path(path@),
{
    let mut names: Vec<Vec<u16>> = Vec::new();
    let mut current: Vec<u16> = Vec::new();
    let mut pos: usize = 0;
    assert(name_views(names@) =~= Seq::<Seq<u16>>::empty());
    assert(name_views(names@) + split_from(path@, 0, current@) =~= split_path(path@));
    while pos < path.len()
        invariant
            pos <= path@.len(),
            split_path(path@) == name_views(names@) + split_from(path@, pos as int, current@),
        decreases path.len() - pos,
    {
        let unit: u16 = path[pos];
        if unit == 0x2F || unit == 0x5C {
            if current.len() > 0 {
                let ghost before = name_views(names@);
                let ghost rest = split_from(path@, pos + 1, Seq::empty());
                assert(before + (seq![current@] + rest) =~= before.push(current@) + rest);
                names.push(current);
                assert(name_views(names@) =~= before.push(current@));
                current = Vec::new();
            }
            assert(current@ =~= Seq::<u16>::empty());
        } else {
            current.push(unit);
        }
        pos = pos + 1;
    }
    if current.len() > 0 {
        let ghost before = name_views(names@);
        names.push(current);
        assert(name_views(names@) =~= before.push(current@));
        assert(before + seq![current@] =~= before.push(current@));
    } else {
        assert(name_views(names@) + Seq::<Seq<u16>>::empty() =~= name_views(names@));
    }
    names
}

/// The way from paths to file references.
pub struct PathResolver {
    mft: MftReader,
    walker: IndexWalker,
}

/// What the proofs know of a resolver.
pub ghost struct ResolverView {
    pub mft: MftView,
    pub walker: WalkerView,
}

impl View for PathResolver {
    type V = ResolverView;

    closed spec fn view(&self) -> ResolverView {
        ResolverView { mft: self.mft@, walker: self.walker@ }
    }
}

impl PathResolver {
    /// The volume that the resolver sees on a device with contents
    /// `image`.
    pub open spec fn on(&self, image: Seq<u8>) -> VolumeView {
        VolumeView { image, mft: self@.mft, walker: self@.walker }
    }

    /// A resolver is usable when its table is.
    pub closed spec fn wf(&self) -> bool {
        self.mft.wf()
    }

    /// A resolver that finds records through `mft` and names through
    /// `walker`.
    pub fn new(mft: MftReader, walker: IndexWalker) -> (r: PathResolver)
        requires
            mft.wf(),
        ensures
            r.wf(),
            r@ == (ResolverView { mft: mft@, walker: walker@ }),
    {
        PathResolver { mft, walker }
    }

    /// The table through which the resolver finds records.
    pub fn mft(&self) -> (m: &MftReader)
        requires
            self.wf(),
        ensures
            m@ == self@.mft,
            m.wf(),
    {
        &self.mft
    }

    /// The reference to the root directory.
    pub fn root(&self, disk: &mut DiskAccessor) -> (r: Result<FileReference, NtfsError>)
        requires
            old(disk).wf(),
            self.wf(),
        ensures
            final(disk).wf(),
            final(disk)@.image == old(disk)@.image,
            final(disk)@.sector_size == old(disk)@.sector_size,
            final(disk)@.reads >= old(disk)@.reads,
            r == root_result(self.on(old(disk)@.image)),
    {
        let record = self.mft.load(disk, ROOT_SEGMENT)?;
        Ok(record.reference)
    }

    /// Looks up `name` in the directory that `current` points to.
    pub fn step(&self, disk: &mut DiskAccessor, current: FileReference, name: &[u16]) -> (r: Result<
        FileReference,
        NtfsError,
    >)
        requires
            old(disk).wf(),
            self.wf(),
        ensures
            final(disk).wf(),
            final(disk)@.image == old(disk)@.image,
            final(disk)@.sector_size == old(disk)@.sector_size,
            final(disk)@.reads >= old(disk)@.reads,
            r == step_result(self.on(old(disk)@.image), current, name@),
    {
        proof {
            reveal(step_result);
        }
        let record = open_complete(&self.mft, disk, current)?;
        if !record.is_directory() {
            return Err(NtfsError::NotADirectory);
        }
        let mut i30: Vec<u16> = Vec::new();
        i30.push(0x24);
        i30.push(0x49);
        i30.push(0x33);
        i30.push(0x30);
        assert(i30@ =~= index_name());
        let root_at: usize = match record.find_attribute(INDEX_ROOT, i30.as_slice()) {
            Some(i) => i,
            None => { return Err(NtfsError::AttributeNotFound); },
        };
        assert(record@.attributes[root_at as int] == record.attributes@[root_at as int]@);
        let allocation: Option<&Attribute> = match record.find_attribute(
            INDEX_ALLOCATION,
            i30.as_slice(),
        ) {
            Some(i) => {
                assert(record@.attributes[i as int] == record.attributes@[i as int]@);
                Some(&record.attributes[i])
            },
            None => None,
        };
        match self.walker.lookup(disk, &record.attributes[root_at], allocation, name)? {
            Some(reference) => Ok(reference),
            None => Err(NtfsError::PathNotFound),
        }
    }

    /// Resolves `path` from the directory that `start` points to, and says
    /// of a failure at which of the path's names it came up. A path whose
    /// names are all found, but which leads to a record that cannot be
    /// opened, fails behind its last name.
    pub fn resolve_traced(
        &self,
        disk: &mut DiskAccessor,
        start: FileReference,
        path: &[u16],
    ) -> (r: Result<FileReference, (NtfsError, usize)>)
        requires
            old(disk).wf(),
            self.wf(),
        ensures
            final(disk).wf(),
            final(disk)@.image == old(disk)@.image,
            final(disk)@.sector_size == old(disk)@.sector_size,
            final(disk)@.reads >= old(disk)@.reads,
            match r {
                Ok(found) => {
                    &&& resolve_from_result(self.on(old(disk)@.image), start, path@) == Ok::<
                        FileReference,
                        NtfsError,
                    >(found)
                    &&& reference_result(old(disk)@.image, self@.mft, found) is Ok
                },
                Err((e, at)) => {
                    &&& resolve_from_result(self.on(old(disk)@.image), start, path@) == Err::<
                        FileReference,
                        NtfsError,
                    >(e)
                    &&& at == failing_component(
                        self.on(old(disk)@.image),
                        start,
                        split_path(path@),
                    )
                },
            },
    {
        let ghost vol = self.on(disk@.image);
        let names = split(path);
        let mut current: FileReference = start;
        let mut i: usize = 0;
        assert(name_views(names@).skip(0) =~= name_views(names@));
        while i < names.len()
            invariant
                disk.wf(),
                self.wf(),
                disk@.image == old(disk)@.image,
                disk@.sector_size == old(disk)@.sector_size,
                disk@.reads >= old(disk)@.reads,
                vol == self.on(old(disk)@.image),
                i <= names@.len(),
                name_views(names@) == split_path(path@),
                resolve_from_result(vol, start, path@) == resolve_names(
                    vol,
                    current,
                    name_views(names@).skip(i as int),
                ),
                failing_component(vol, start, split_path(path@)) == i + failing_component(
                    vol,
                    current,
                    name_views(names@).skip(i as int),
                ),
            decreases names.len() - i,
        {
            let ghost rest = name_views(names@).skip(i as int);
            assert(rest[0] == names@[i as int]@);
            assert(rest.drop_first() =~= name_views(names@).skip(i + 1));
            current = match self.step(disk, current, names[i].as_slice()) {
                Ok(next) => next,
                Err(e) => { return Err((e, i)); },
            };
            i = i + 1;
        }
        assert(name_views(names@).skip(i as int) =~= Seq::<Seq<u16>>::empty());
        match self.mft.open(disk, current) {
            Ok(_) => Ok(current),
            Err(e) => Err((e, i)),
        }
    }

    /// Resolves `path` from the directory that `start` points to.
    pub fn resolve_from(&self, disk: &mut DiskAccessor, start: FileReference, path: &[u16]) -> (r:
        Result<FileReference, NtfsError>)
        requires
            old(disk).wf(),
            self.wf(),
        ensures
            final(disk).wf(),
            final(disk)@.image == old(disk)@.image,
            final(disk)@.sector_size == old(disk)@.sector_size,
            final(disk)@.reads >= old(disk)@.reads,
            r == resolve_from_result(self.on(old(disk)@.image), start, path@),
            r matches Ok(found) ==> reference_result(old(disk)@.image, self@.mft, found) is Ok,
    {
        match self.resolve_traced(disk, start, path) {
            Ok(found) => Ok(found),
            Err((e, _)) => Err(e),
        }
    }

    /// Resolves `path` from the root directory.
    pub fn resolve(&self, disk: &mut DiskAccessor, path: &[u16]) -> (r: Result<
        FileReference,
        NtfsError,
    >)
        requires
            old(disk).wf(),
            self.wf(),
        ensures
            final(disk).wf(),
            final(disk)@.image == old(disk)@.image,
            final(disk)@.sector_size == old(disk)@.sector_size,
            final(disk)@.reads >= old(disk)@.reads,
            r == resolve_result(self.on(old(disk)@.image), path@),
            r matches Ok(found) ==> reference_result(old(disk)@.image, self@.mft, found) is Ok,
    {
        proof {
            reveal(resolve_result);
        }
        let root = self.root(disk)?;
        self.resolve_from(disk, root, path)
    }
}

} // verus!
