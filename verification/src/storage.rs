//! Sizes and descriptions of storage devices.
use vstd::prelude::*;
use crate::text::{
    chars_of, contains, containsPattern, first_line_index, firstLineIndex, parse_number,
    parseNumber, split, splitText, string_of, views,
};

verus! {

/// The size of a device or of a partition, in bytes.
#[derive(Debug, Clone)]
pub struct ByteSize {
    bytes: usize,
}

impl ByteSize {
    /// The number of bytes.
    pub closed spec fn bytes(&self) -> nat {
        self.bytes as nat
    }

    pub fn new(value: usize) -> (size: ByteSize)
        ensures
            size.bytes() == value,
    {
        ByteSize { bytes: value }
    }

    /// The size in bytes.
    pub fn b(&self) -> (bytes: usize)
        ensures
            bytes == self.bytes(),
    {
        self.bytes
    }
}

/// Encloses device name, size and startpoint relative to a partition
#[derive(Debug, Clone)]
pub struct StoragePartition {
    pub device: String,
    pub mountPoint: String,
    pub fileSystem: String,
    pub size: ByteSize,
    pub startPoint: usize,
}

/// Contains information relative to a storage device in the system
#[derive(Debug, Clone)]
pub struct StorageDevice {
    pub model: String,
    pub device: String,
    pub size: ByteSize,
    pub partitions: Vec<StoragePartition>,
}

/// The size that the partition table holds for the device `name`: the
/// number that the word before the last one writes, in the first line in
/// which `name` stands. 0 where it stands in no line; `None` where the line
/// has no such word, or the word writes no number that fits the machine
/// word.
pub open spec fn table_size(partitions: Seq<char>, name: Seq<char>) -> Option<nat> {
    let lines = split(partitions, "\n"@);
    let at = first_line_index(lines, name, 0);
    if at < 0 {
        Some(0nat)
    } else {
        let words = split(lines[at], " "@);
        if words.len() < 2 {
            None
        } else {
            parse_number(words[words.len() - 2], usize::MAX as nat)
        }
    }
}

/// The size that the partition table of the kernel holds for the device
/// `name`, if it can be read.
pub fn tableSize(partitions: &str, name: &str) -> (size: Option<usize>)
    ensures
        match size {
            Some(n) => table_size(partitions@, name@) == Some(n as nat),
            None => table_size(partitions@, name@) is None,
        },
{
    let text = chars_of(partitions);
    let key = chars_of(name);
    let newline = chars_of("\n");
    let space = chars_of(" ");
    proof {
        reveal_strlit("\n");
        reveal_strlit(" ");
    }
    let lines = splitText(&text, &newline);
    match firstLineIndex(&lines, &key) {
        None => Some(0),
        Some(at) => {
            assert(views(lines@)[at as int] == lines@[at as int]@);
            let words = splitText(&lines[at], &space);
            assert(views(words@).len() == words@.len());
            if words.len() < 2 {
                return None;
            }
            let place = words.len() - 2;
            assert(views(words@)[place as int] == words@[place as int]@);
            match parseNumber(&words[place], usize::MAX as u64) {
                Some(n) => Some(n as usize),
                None => None,
            }
        },
    }
}

/// Where the mount table says that a device is mounted, and with which
/// file system: the second and the third word of the first line in which
/// `key` stands. Both empty where it stands in no line; `None` where the
/// line has fewer than three words.
pub open spec fn mount_of(mounts: Seq<char>, key: Seq<char>) -> Option<(Seq<char>, Seq<char>)> {
    let lines = split(mounts, "\n"@);
    let at = first_line_index(lines, key, 0);
    if at < 0 {
        Some((Seq::empty(), Seq::empty()))
    } else {
        let words = split(lines[at], " "@);
        if words.len() < 3 {
            None
        } else {
            Some((words[1], words[2]))
        }
    }
}

/// The mount point and the file system of the device that `key` names in
/// the mount table of the kernel, if they can be read.
pub fn mountOf(mounts: &str, key: &str) -> (mount: Option<(String, String)>)
    ensures
        match mount {
            Some((point, system)) => mount_of(mounts@, key@) == Some((point@, system@)),
            None => mount_of(mounts@, key@) is None,
        },
{
    let text = chars_of(mounts);
    let name = chars_of(key);
    let newline = chars_of("\n");
    let space = chars_of(" ");
    proof {
        reveal_strlit("\n");
        reveal_strlit(" ");
    }
    let lines = splitText(&text, &newline);
    match firstLineIndex(&lines, &name) {
        None => Some((String::new(), String::new())),
        Some(at) => {
            assert(views(lines@)[at as int] == lines@[at as int]@);
            let words = splitText(&lines[at], &space);
            assert(views(words@).len() == words@.len());
            if words.len() < 3 {
                return None;
            }
            assert(views(words@)[1] == words@[1]@);
            assert(views(words@)[2] == words@[2]@);
            Some((string_of(&words[1]), string_of(&words[2])))
        },
    }
}

/// A line of the mount table: the device, its name, where it is mounted
/// and with which file system.
#[derive(Debug, Clone)]
pub struct Mount {
    pub device: String,
    pub name: String,
    pub mountPoint: String,
    pub fileSystem: String,
}

/// What a `Mount` holds, as sequences of characters.
pub struct MountView {
    pub device: Seq<char>,
    pub name: Seq<char>,
    pub mountPoint: Seq<char>,
    pub fileSystem: Seq<char>,
}

impl View for Mount {
    type V = MountView;

    open spec fn view(&self) -> MountView {
        MountView {
            device: self.device@,
            name: self.name@,
            mountPoint: self.mountPoint@,
            fileSystem: self.fileSystem@,
        }
    }
}

/// The views of a list of mounts.
pub open spec fn mount_views(mounts: Seq<Mount>) -> Seq<MountView> {
    Seq::new(mounts.len(), |i: int| mounts[i]@)
}

/// Whether a line of the mount table has the words of one: three or
/// more, the first of them a path of three parts or more.
pub open spec fn mount_line_ok(line: Seq<char>) -> bool {
    let words = split(line, " "@);
    words.len() >= 3 && split(words[0], "/"@).len() >= 3
}

/// The mount that a line of the mount table describes: its first three
/// words are the device, the mount point and the file system, and the name
/// of the device is the third part of its path.
pub open spec fn mount_of_line(line: Seq<char>) -> MountView {
    let words = split(line, " "@);
    MountView {
        device: words[0],
        name: split(words[0], "/"@)[2],
        mountPoint: words[1],
        fileSystem: words[2],
    }
}

/// The mounts of the lines among `lines` in which `device` stands, or
/// `None` where one of these lines has not the words of one.
pub open spec fn mounts_of_lines(lines: Seq<Seq<char>>, device: Seq<char>) -> Option<
    Seq<MountView>,
>
    decreases lines.len(),
{
    if lines.len() == 0 {
        Some(Seq::empty())
    } else {
        match mounts_of_lines(lines.drop_last(), device) {
            None => None,
            Some(before) => if !contains(lines.last(), device) {
                Some(before)
            } else if mount_line_ok(lines.last()) {
                Some(before.push(mount_of_line(lines.last())))
            } else {
                None
            },
        }
    }
}

/// The mounts of `device` and of its partitions, from the content of the
/// mount table of the kernel, if they can be read.
pub fn mountsOf(mounts: &str, device: &str) -> (found: Option<Vec<Mount>>)
    ensures
        match found {
            Some(v) => mounts_of_lines(split(mounts@, "\n"@), device@) == Some(mount_views(v@)),
            None => mounts_of_lines(split(mounts@, "\n"@), device@) is None,
        },
{
    let text = chars_of(mounts);
    let key = chars_of(device);
    let newline = chars_of("\n");
    let space = chars_of(" ");
    let slash = chars_of("/");
    proof {
        reveal_strlit("\n");
        reveal_strlit(" ");
        reveal_strlit("/");
    }
    let lines = splitText(&text, &newline);
    let ghost all = views(lines@);
    let mut found: Vec<Mount> = Vec::new();
    let mut i: usize = 0;
    proof {
        assert(mount_views(found@) =~= Seq::<MountView>::empty());
    }
    while i < lines.len()
        invariant
            i <= lines.len(),
            all == views(lines@),
            all == split(mounts@, "\n"@),
            key@ == device@,
            space@ == " "@,
            space@.len() > 0,
            slash@ == "/"@,
            slash@.len() > 0,
            mounts_of_lines(all.take(i as int), device@) == Some(mount_views(found@)),
        decreases lines.len() - i,
    {
        let ghost before = found@;
        proof {
            assert(all[i as int] == lines@[i as int]@);
            assert(all.take(i + 1).drop_last() =~= all.take(i as int));
            assert(all.take(i + 1).last() == all[i as int]);
        }
        if containsPattern(&lines[i], &key) {
            let words = splitText(&lines[i], &space);
            assert(views(words@).len() == words@.len());
            if words.len() < 3 {
                proof {
                    lemma_mounts_fail(all, device@, i + 1);
                }
                return None;
            }
            assert(views(words@)[0] == words@[0]@);
            assert(views(words@)[1] == words@[1]@);
            assert(views(words@)[2] == words@[2]@);
            let parts = splitText(&words[0], &slash);
            assert(views(parts@).len() == parts@.len());
            if parts.len() < 3 {
                proof {
                    lemma_mounts_fail(all, device@, i + 1);
                }
                return None;
            }
            assert(views(parts@)[2] == parts@[2]@);
            let mount = Mount {
                device: string_of(&words[0]),
                name: string_of(&parts[2]),
                mountPoint: string_of(&words[1]),
                fileSystem: string_of(&words[2]),
            };
            found.push(mount);
            proof {
                assert(mount_views(found@) =~= mount_views(before).push(mount@));
            }
        }
        i += 1;
    }
    proof {
        assert(all.take(i as int) =~= all);
    }
    Some(found)
}

/// Where some of the lines cannot be read, all of them cannot.
pub proof fn lemma_mounts_fail(lines: Seq<Seq<char>>, device: Seq<char>, fewer: int)
    requires
        0 <= fewer <= lines.len(),
        mounts_of_lines(lines.take(fewer), device) is None,
    ensures
        mounts_of_lines(lines, device) is None,
    decreases lines.len(),
{
    if fewer == lines.len() {
        assert(lines.take(fewer) =~= lines);
    } else {
        assert(lines.drop_last().take(fewer) =~= lines.take(fewer));
        lemma_mounts_fail(lines.drop_last(), device, fewer);
    }
}

} // verus!
