//! Filesystem entries as the browser sees them.
use vstd::prelude::*;
use crate::text::copy_str;

verus! {

/// The kind of a filesystem entry.
#[derive(PartialEq, Eq, Structural)]
pub enum FileType {
    File,
    Directory,
    Other,
}

impl FileType {
    /// The name under which the kind is shown.
    pub open spec fn spec_label(self) -> Seq<char> {
        match self {
            FileType::File => "file"@,
            FileType::Directory => "directory"@,
            FileType::Other => "other"@,
        }
    }

    /// The name under which the kind is shown.
    pub fn label(&self) -> (r: String)
        ensures
            r@ == self.spec_label(),
    {
        match self {
            FileType::File => copy_str("file"),
            FileType::Directory => copy_str("directory"),
            FileType::Other => copy_str("other"),
        }
    }

    pub fn copy(&self) -> (r: FileType)
        ensures
            r == *self,
    {
        match self {
            FileType::File => FileType::File,
            FileType::Directory => FileType::Directory,
            FileType::Other => FileType::Other,
        }
    }
}

/// A point in time, as seconds and nanoseconds after the Unix epoch.
#[derive(PartialEq, Eq, Structural, Clone, Copy)]
pub struct Timestamp {
    pub secs: u64,
    pub nanos: u32,
}

/// Metadata about a filesystem entry.
pub struct FileInfo {
    /// Full path of the entry.
    pub name: String,
    /// Size in bytes (0 for directories).
    pub size: u64,
    pub file_type: FileType,
    pub created: Option<Timestamp>,
    pub modified: Option<Timestamp>,
    /// Further metadata as key/value pairs, with distinct keys.
    pub extra: Vec<(String, String)>,
}

/// The mathematical value of an entry's metadata.
pub struct InfoView {
    pub name: Seq<char>,
    pub size: u64,
    pub file_type: FileType,
    pub created: Option<Timestamp>,
    pub modified: Option<Timestamp>,
    pub extra: Seq<(Seq<char>, Seq<char>)>,
}

impl InfoView {
    pub open spec fn is_dir(self) -> bool {
        self.file_type == FileType::Directory
    }

    pub open spec fn is_file(self) -> bool {
        self.file_type == FileType::File
    }
}

/// Pairs by their characters.
pub open spec fn pairs_view(s: Seq<(String, String)>) -> Seq<(Seq<char>, Seq<char>)> {
    s.map_values(|p: (String, String)| (p.0@, p.1@))
}

/// The metadata of a regular file known by its name and size.
pub open spec fn file_info(name: Seq<char>, size: u64) -> InfoView {
    InfoView {
        name,
        size,
        file_type: FileType::File,
        created: None,
        modified: None,
        extra: Seq::empty(),
    }
}

/// The metadata of a folder known only by its name.
pub open spec fn folder_info(name: Seq<char>) -> InfoView {
    InfoView {
        name,
        size: 0,
        file_type: FileType::Directory,
        created: None,
        modified: None,
        extra: Seq::empty(),
    }
}

impl View for FileInfo {
    type V = InfoView;

    open spec fn view(&self) -> InfoView {
        InfoView {
            name: self.name@,
            size: self.size,
            file_type: self.file_type,
            created: self.created,
            modified: self.modified,
            extra: pairs_view(self.extra@),
        }
    }
}

impl FileInfo {
    /// A regular file of the given size.
    pub fn file(name: &str, size: u64) -> (r: FileInfo)
        ensures
            r@ == file_info(name@, size),
    {
        let r = FileInfo {
            name: copy_str(name),
            size,
            file_type: FileType::File,
            created: None,
            modified: None,
            extra: Vec::new(),
        };
        assert(r@.extra =~= Seq::<(Seq<char>, Seq<char>)>::empty());
        r
    }

    /// A directory.
    pub fn directory(name: &str) -> (r: FileInfo)
        ensures
            r@ == folder_info(name@),
    {
        let r = FileInfo {
            name: copy_str(name),
            size: 0,
            file_type: FileType::Directory,
            created: None,
            modified: None,
            extra: Vec::new(),
        };
        assert(r@.extra =~= Seq::<(Seq<char>, Seq<char>)>::empty());
        r
    }


    pub open spec fn spec_is_file(&self) -> bool {
        self.file_type == FileType::File
    }

    pub open spec fn spec_is_dir(&self) -> bool {
        self.file_type == FileType::Directory
    }

    /// Whether this entry is a regular file.
    #[verifier::when_used_as_spec(spec_is_file)]
    pub fn is_file(&self) -> (r: bool)
        ensures
            r == self.spec_is_file(),
    {
        match self.file_type {
            FileType::File => true,
            _ => false,
        }
    }

    /// Whether this entry is a directory.
    #[verifier::when_used_as_spec(spec_is_dir)]
    pub fn is_dir(&self) -> (r: bool)
        ensures
            r == self.spec_is_dir(),
    {
        match self.file_type {
            FileType::Directory => true,
            _ => false,
        }
    }

    /// A copy of this entry.
    pub fn copy(&self) -> (r: FileInfo)
        ensures
            r@ == self@,
    {
        let mut extra: Vec<(String, String)> = Vec::new();
        let mut i: usize = 0;
        while i < self.extra.len()
            invariant
                i <= self.extra@.len(),
                extra@.len() == i,
                forall|j: int|
                    0 <= j < i ==> (#[trigger] extra@[j]).0@ == self.extra@[j].0@ && extra@[j].1@
                        == self.extra@[j].1@,
            decreases self.extra@.len() - i,
        {
            extra.push(
                (copy_str(self.extra[i].0.as_str()), copy_str(self.extra[i].1.as_str())),
            );
            i = i + 1;
        }
        let r = FileInfo {
            name: copy_str(self.name.as_str()),
            size: self.size,
            file_type: self.file_type.copy(),
            created: self.created,
            modified: self.modified,
            extra,
        };
        assert(pairs_view(r.extra@) =~= pairs_view(self.extra@));
        r
    }
}

/// One page of a directory listing.
pub struct ListPage {
    pub entries: Vec<FileInfo>,
    pub has_more: bool,
}

/// A range of bytes read for a preview.
pub struct PreviewPage {
    pub bytes: Vec<u8>,
    pub has_more: bool,
    pub next_offset: usize,
}

} // verus!
