//! Archive entries and their metadata, and how the listing of a directory
//! becomes a tree of entries.

use vstd::prelude::*;
use vstd::string::StringExecFns;
use vstd::utf8::encode_utf8;
use crate::header::HeaderError;
use crate::header::MAX_TEXT;

verus! {

/// The kind of an entry, as the type-flag byte of its header tells it.
#[derive(Clone, Copy, Debug, PartialEq, Eq, Structural)]
pub enum TypeFlag {
    /// Normal file.
    T0,
    /// Hard link.
    T1,
    /// Symbolic link.
    T2,
    /// Character special.
    T3,
    /// Block special.
    T4,
    /// Directory.
    T5,
    /// FIFO (named pipe).
    T6,
    /// Contiguous file.
    T7,
    /// Global extended header with metadata.
    G,
    /// Extended header with metadata for the next file in the archive.
    X,
}

impl TypeFlag {
    /// The byte that stands for this kind in a header: an ASCII digit or
    /// letter, never a raw number.
    pub open spec fn byte(self) -> u8 {
        match self {
            TypeFlag::T0 => 0x30,
            TypeFlag::T1 => 0x31,
            TypeFlag::T2 => 0x32,
            TypeFlag::T3 => 0x33,
            TypeFlag::T4 => 0x34,
            TypeFlag::T5 => 0x35,
            TypeFlag::T6 => 0x36,
            TypeFlag::T7 => 0x37,
            TypeFlag::G => 0x67,
            TypeFlag::X => 0x78,
        }
    }

    /// The type-flag byte of this kind.
    pub fn to_byte(&self) -> (b: u8)
        ensures
            b == self.byte(),
    {
        match self {
            TypeFlag::T0 => 0x30,
            TypeFlag::T1 => 0x31,
            TypeFlag::T2 => 0x32,
            TypeFlag::T3 => 0x33,
            TypeFlag::T4 => 0x34,
            TypeFlag::T5 => 0x35,
            TypeFlag::T6 => 0x36,
            TypeFlag::T7 => 0x37,
            TypeFlag::G => 0x67,
            TypeFlag::X => 0x78,
        }
    }

    /// The kind that a type-flag byte stands for, if it stands for one.
    pub fn from_byte(b: u8) -> (res: Option<TypeFlag>)
        ensures
            res is Some <==> exists|t: TypeFlag| t.byte() == b,
            res is Some ==> res->0.byte() == b,
    {
        let res = if b == 0x30 {
            Some(TypeFlag::T0)
        } else if b == 0x31 {
            Some(TypeFlag::T1)
        } else if b == 0x32 {
            Some(TypeFlag::T2)
        } else if b == 0x33 {
            Some(TypeFlag::T3)
        } else if b == 0x34 {
            Some(TypeFlag::T4)
        } else if b == 0x35 {
            Some(TypeFlag::T5)
        } else if b == 0x36 {
            Some(TypeFlag::T6)
        } else if b == 0x37 {
            Some(TypeFlag::T7)
        } else if b == 0x67 {
            Some(TypeFlag::G)
        } else if b == 0x78 {
            Some(TypeFlag::X)
        } else {
            None
        };
        proof {
            if res is Some {
                assert(res->0.byte() == b);
            }
        }
        res
    }
}

/// What is known of one entry: the values that its header records.
#[derive(Clone, Debug)]
pub struct FileData {
    /// The entry's path inside the archive.
    pub path: String,
    /// Permission bits.
    pub mode: u32,
    /// Numeric id of the owning user.
    pub owner_id: u32,
    /// Numeric id of the owning group.
    pub group_id: u32,
    /// Length of the content in bytes.
    pub file_size: u64,
    /// Last modification, in seconds since the epoch.
    pub last_mod_time: u64,
    /// The kind of entry.
    pub type_flag: TypeFlag,
    /// For a link, the path that it points to; empty otherwise.
    pub linked_file_name: String,
}

impl FileData {
    /// Whether the link target is empty unless the entry is a hard link or
    /// a symbolic link.
    pub open spec fn link_only_for_link(self) -> bool {
        self.linked_file_name@.len() == 0 || self.type_flag == TypeFlag::T1 || self.type_flag
            == TypeFlag::T2
    }

    /// Whether the link target is empty unless the entry is a link.
    pub fn has_link_only_for_link(&self) -> (ok: bool)
        ensures
            ok == self.link_only_for_link(),
    {
        self.linked_file_name.as_str().is_empty() || self.type_flag == TypeFlag::T1
            || self.type_flag == TypeFlag::T2
    }
}

impl Default for FileData {
    /// An entry with nothing in it: empty texts, zero numbers, a normal file.
    fn default() -> (d: Self)
        ensures
            d.path@ == Seq::<char>::empty(),
            d.mode == 0,
            d.owner_id == 0,
            d.group_id == 0,
            d.file_size == 0,
            d.last_mod_time == 0,
            d.type_flag == TypeFlag::T0,
            d.linked_file_name@ == Seq::<char>::empty(),
    {
        Self {
            path: String::new(),
            mode: 0,
            owner_id: 0,
            group_id: 0,
            file_size: 0,
            last_mod_time: 0,
            type_flag: TypeFlag::T0,
            linked_file_name: String::new(),
        }
    }
}

/// A node of the tree that goes into an archive.
#[derive(Debug)]
pub enum Element {
    /// An entry without children: a file, a link, a device.
    File(Box<FileData>),
    /// A directory: the entries inside it, in their order, and its own data.
    Dir(Vec<Element>, Box<FileData>),
}

impl Element {
    /// The entry's own metadata.
    pub open spec fn data(self) -> FileData {
        match self {
            Element::File(data) => *data,
            Element::Dir(_, data) => *data,
        }
    }

    /// The entries directly inside this one; none for a file.
    pub open spec fn children(self) -> Seq<Element> {
        match self {
            Element::File(_) => Seq::empty(),
            Element::Dir(children, _) => children@,
        }
    }

    /// The node's shape and its metadata agree, here and below: a directory
    /// node is marked as a directory and has size zero, no other node is
    /// marked as a directory, and only a link records a link target.
    pub open spec fn well_formed(self) -> bool
        decreases self,
    {
        match self {
            Element::File(data) => data.type_flag != TypeFlag::T5 && data.link_only_for_link(),
            Element::Dir(children, data) => {
                &&& data.type_flag == TypeFlag::T5
                &&& data.file_size == 0
                &&& data.link_only_for_link()
                &&& forall|i: int|
                    0 <= i < children@.len() ==> (#[trigger] children@[i]).well_formed()
            },
        }
    }

    /// The entry's own metadata.
    pub fn metadata(&self) -> (data: &FileData)
        ensures
            *data == self.data(),
    {
        match self {
            Element::File(data) => data,
            Element::Dir(_, data) => data,
        }
    }

    /// Whether the node's shape and its metadata agree, here and below.
    #[verifier::loop_isolation(false)]
    pub fn is_well_formed(&self) -> (ok: bool)
        ensures
            ok == self.well_formed(),
        decreases self,
    {
        match self {
            Element::File(data) => data.type_flag != TypeFlag::T5 && data.has_link_only_for_link(),
            Element::Dir(children, data) => {
                if data.type_flag != TypeFlag::T5 || data.file_size != 0
                    || !data.has_link_only_for_link() {
                    return false;
                }
                let mut i: usize = 0;
                while i < children.len()
                    invariant
                        i <= children@.len(),
                        forall|j: int| 0 <= j < i ==> (#[trigger] children@[j]).well_formed(),
                    decreases children@.len() - i,
                {
                    if !children[i].is_well_formed() {
                        return false;
                    }
                    i = i + 1;
                }
                true
            },
        }
    }

    /// The header block of this entry, or the value that does not fit its
    /// field.
    pub fn get_binary_header(&self) -> (res: Result<[u8; 512], HeaderError>)
        ensures
            match res {
                Ok(block) => self.data().fault() is None && block@ == self.data().header(),
                Err(e) => self.data().fault() == Some(e),
            },
    {
        self.metadata().encode()
    }
}

/// What the file system reports of one directory entry, and of the entries
/// below it if it is a directory.
#[derive(Debug)]
pub struct RawEntry {
    /// The entry's name inside its directory.
    pub name: String,
    /// The mode as reported: the permission bits, and above them the bits
    /// that tell the file's type.
    pub mode: u32,
    /// Numeric id of the owning user.
    pub owner_id: u32,
    /// Numeric id of the owning group.
    pub group_id: u32,
    /// Length in bytes, as reported.
    pub size: u64,
    /// Last modification, in seconds since the epoch.
    pub mtime: u64,
    /// Whether the entry is a directory.
    pub is_dir: bool,
    /// Whether the entry is a symbolic link.
    pub is_symlink: bool,
    /// The entries inside a directory, in the order in which they were
    /// listed; not looked at for other entries.
    pub children: Vec<RawEntry>,
}

/// The path of the entry called `name` inside the directory `parent`.
pub open spec fn child_path(parent: Seq<char>, name: Seq<char>) -> Seq<char> {
    parent + seq!['/'] + name
}

impl RawEntry {
    /// The kind under which the entry is recorded: a directory, a symbolic
    /// link (which is not followed), or a normal file.
    pub open spec fn kind(self) -> TypeFlag {
        if self.is_dir {
            TypeFlag::T5
        } else if self.is_symlink {
            TypeFlag::T2
        } else {
            TypeFlag::T0
        }
    }

    /// The mode that is recorded: the permission bits of the reported one.
    pub open spec fn recorded_mode(self) -> u32 {
        self.mode & 0o7777
    }

    /// The size that is recorded: the reported one for a normal file, zero
    /// for a directory and for a link, which have no content of their own.
    pub open spec fn recorded_size(self) -> u64 {
        if self.is_dir || self.is_symlink {
            0
        } else {
            self.size
        }
    }

    /// The first path of more than a hundred bytes among this entry and the
    /// entries below it, a directory before what it holds; `None` if there
    /// is none.
    pub open spec fn fault(self, parent: Seq<char>) -> Option<HeaderError>
        decreases self, 0nat,
    {
        let path = child_path(parent, self.name@);
        if encode_utf8(path).len() > 100 {
            Some(HeaderError::PathTooLong { length: encode_utf8(path).len() as usize })
        } else if self.is_dir {
            listing_fault_from(path, self.children@, 0)
        } else {
            None
        }
    }

    /// Whether `element` is this entry as it is recorded under `parent`:
    /// the joined path, the permission bits, the reported owner, group and
    /// time, the kind and its size, no link target, and for a directory the
    /// recorded children in the listed order.
    pub open spec fn recorded_as(self, parent: Seq<char>, element: Element) -> bool
        decreases self,
    {
        let path = child_path(parent, self.name@);
        let data = element.data();
        &&& data.path@ == path
        &&& data.mode == self.recorded_mode()
        &&& data.owner_id == self.owner_id
        &&& data.group_id == self.group_id
        &&& data.file_size == self.recorded_size()
        &&& data.last_mod_time == self.mtime
        &&& data.type_flag == self.kind()
        &&& data.linked_file_name@ == Seq::<char>::empty()
        &&& (element is Dir) == self.is_dir
        &&& self.is_dir ==> {
            &&& element.children().len() == self.children@.len()
            &&& forall|i: int|
                0 <= i < self.children@.len() ==> (#[trigger] self.children@[i]).recorded_as(
                    path,
                    element.children()[i],
                )
        }
    }
}

/// The first fault among `entries[from..]`, each taken with all that lies
/// below it before the next.
pub open spec fn listing_fault_from(parent: Seq<char>, entries: Seq<RawEntry>, from: nat) -> Option<
    HeaderError,
>
    decreases entries, entries.len() - from,
{
    if from >= entries.len() {
        None
    } else {
        match entries[from as int].fault(parent) {
            Some(e) => Some(e),
            None => listing_fault_from(parent, entries, from + 1),
        }
    }
}

/// The first fault in a listing, in depth-first order.
pub open spec fn listing_fault(parent: Seq<char>, entries: Seq<RawEntry>) -> Option<HeaderError> {
    listing_fault_from(parent, entries, 0)
}

/// Whether `elements` are the entries of `listing`, one for one and in the
/// same order, as they are recorded under `parent`.
pub open spec fn listing_recorded_as(
    parent: Seq<char>,
    listing: Seq<RawEntry>,
    elements: Seq<Element>,
) -> bool {
    &&& elements.len() == listing.len()
    &&& forall|i: int|
        0 <= i < listing.len() ==> (#[trigger] listing[i]).recorded_as(parent, elements[i])
}

/// Records one listed entry under `parent`, with all that lies below it.
fn collect_entry(parent: &String, entry: &RawEntry) -> (res: Result<Element, HeaderError>)
    ensures
        match res {
            Ok(element) => {
                &&& entry.fault(parent@) is None
                &&& entry.recorded_as(parent@, element)
                &&& element.well_formed()
            },
            Err(e) => entry.fault(parent@) == Some(e),
        },
    decreases entry, 0nat,
{
    let mut path = parent.clone();
    path.append("/");
    path.append(entry.name.as_str());
    proof {
        reveal_strlit("/");
        assert(path@ =~= child_path(parent@, entry.name@));
    }
    let length = path.as_str().as_bytes().len();
    if length > MAX_TEXT {
        return Err(HeaderError::PathTooLong { length });
    }
    if entry.is_dir {
        match get_elements_from_path(&path, &entry.children) {
            Ok(children) => {
                let data = FileData {
                    path,
                    mode: entry.mode & 0o7777,
                    owner_id: entry.owner_id,
                    group_id: entry.group_id,
                    file_size: 0,
                    last_mod_time: entry.mtime,
                    type_flag: TypeFlag::T5,
                    linked_file_name: String::new(),
                };
                Ok(Element::Dir(children, Box::new(data)))
            },
            Err(e) => Err(e),
        }
    } else {
        let data = FileData {
            path,
            mode: entry.mode & 0o7777,
            owner_id: entry.owner_id,
            group_id: entry.group_id,
            file_size: if entry.is_symlink {
                0
            } else {
                entry.size
            },
            last_mod_time: entry.mtime,
            type_flag: if entry.is_symlink {
                TypeFlag::T2
            } else {
                TypeFlag::T0
            },
            linked_file_name: String::new(),
        };
        Ok(Element::File(Box::new(data)))
    }
}

/// Records the entries that were listed in the directory `path`, in the
/// order of the listing, each directory with the entries below it. Fails on
/// the first path of more than a hundred bytes, in depth-first order.
pub fn get_elements_from_path(path: &String, listing: &Vec<RawEntry>) -> (res: Result<
    Vec<Element>,
    HeaderError,
>)
    ensures
        match res {
            Ok(elements) => {
                &&& listing_fault(path@, listing@) is None
                &&& listing_recorded_as(path@, listing@, elements@)
                &&& forall|i: int|
                    0 <= i < elements@.len() ==> (#[trigger] elements@[i]).well_formed()
            },
            Err(e) => listing_fault(path@, listing@) == Some(e),
        },
    decreases listing, 1nat,
{
    let mut elements: Vec<Element> = Vec::new();
    let mut i: usize = 0;
    while i < listing.len()
        invariant
            i <= listing@.len(),
            elements@.len() == i,
            listing_fault(path@, listing@) == listing_fault_from(path@, listing@, i as nat),
            forall|j: int|
                0 <= j < i ==> (#[trigger] listing@[j]).recorded_as(path@, elements@[j]),
            forall|j: int| 0 <= j < i ==> (#[trigger] elements@[j]).well_formed(),
        decreases listing@.len() - i,
    {
        match collect_entry(path, &listing[i]) {
            Ok(element) => {
                elements.push(element);
            },
            Err(e) => {
                return Err(e);
            },
        }
        i = i + 1;
    }
    Ok(elements)
}

} // verus!
