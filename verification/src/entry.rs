//! Metadata records for filesystem objects observed during a scan, and the
//! derivation of a name's extension.

use vstd::prelude::*;
use vstd::string::StrSliceExecFns;

verus! {

/// One filesystem object observed during a scan: a snapshot of the metadata
/// the caller read for it, immutable once built.
#[derive(Debug)]
pub struct FileInfo {
    pub path: String,
    pub name: String,
    pub size: u64,
    pub modified: u64,
    pub accessed: u64,
    pub is_directory: bool,
    pub extension: String,
}

/// True when some character of `s` is a `'.'`.
pub open spec fn contains_dot(s: Seq<char>) -> bool {
    exists|i: int| 0 <= i < s.len() && s[i] == '.'
}

/// The characters after the final `'.'` of `s`, or the empty sequence when
/// `s` holds no `'.'`.
pub open spec fn extension_spec(s: Seq<char>) -> Seq<char>
    decreases s.len(),
{
    if s.len() == 0 {
        Seq::empty()
    } else if s.last() == '.' {
        Seq::empty()
    } else if contains_dot(s.drop_last()) {
        extension_spec(s.drop_last()).push(s.last())
    } else {
        Seq::empty()
    }
}

proof fn lemma_extension_after_last_dot(s: Seq<char>, j: int)
    requires
        0 <= j < s.len(),
        s[j] == '.',
        forall|k: int| j < k < s.len() ==> s[k] != '.',
    ensures
        extension_spec(s) == s.subrange(j + 1, s.len() as int),
    decreases s.len(),
{
    if j == s.len() - 1 {
        assert(s.last() == '.');
        assert(extension_spec(s) =~= s.subrange(j + 1, s.len() as int));
    } else {
        assert(s.last() != '.');
        assert(s.drop_last()[j] == '.');
        assert(contains_dot(s.drop_last()));
        lemma_extension_after_last_dot(s.drop_last(), j);
        assert(extension_spec(s) =~= s.subrange(j + 1, s.len() as int));
    }
}

proof fn lemma_extension_no_dot(s: Seq<char>)
    requires
        forall|k: int| 0 <= k < s.len() ==> s[k] != '.',
    ensures
        extension_spec(s) == Seq::<char>::empty(),
{
    if s.len() != 0 {
        assert(forall|k: int| 0 <= k < s.drop_last().len() ==> s.drop_last()[k] != '.');
        assert(!contains_dot(s.drop_last()));
    }
    assert(extension_spec(s) =~= Seq::<char>::empty());
}

/// The text after the final `'.'` of `name`, or the empty string when `name`
/// holds none.
pub fn extension_of(name: &str) -> (ext: String)
    ensures
        ext@ == extension_spec(name@),
{
    let n: usize = name.unicode_len();
    let mut i: usize = n;
    while i > 0
        invariant
            i <= n,
            n == name@.len(),
            forall|k: int| i <= k < n ==> name@[k] != '.',
        decreases i,
    {
        let c = name.get_char(i - 1);
        if c == '.' {
            let suffix = name.substring_char(i, n);
            proof {
                lemma_extension_after_last_dot(name@, i - 1);
            }
            return suffix.to_owned();
        }
        i = i - 1;
    }
    proof {
        lemma_extension_no_dot(name@);
    }
    String::new()
}

impl FileInfo {
    /// The stored extension is exactly the one its name implies.
    pub open spec fn wf(self) -> bool {
        self.extension@ == extension_spec(self.name@)
    }

    /// Builds the record for one inspected filesystem object, deriving the
    /// extension from the base name.
    pub fn new(
        path: String,
        name: String,
        size: u64,
        modified: u64,
        accessed: u64,
        is_directory: bool,
    ) -> (info: FileInfo)
        ensures
            info.path == path,
            info.name == name,
            info.size == size,
            info.modified == modified,
            info.accessed == accessed,
            info.is_directory == is_directory,
            info.wf(),
    {
        let extension = extension_of(name.as_str());
        FileInfo { path, name, size, modified, accessed, is_directory, extension }
    }
}

impl Clone for FileInfo {
    fn clone(&self) -> (other: Self)
        ensures
            other == *self,
    {
        FileInfo {
            path: self.path.clone(),
            name: self.name.clone(),
            size: self.size,
            modified: self.modified,
            accessed: self.accessed,
            is_directory: self.is_directory,
            extension: self.extension.clone(),
        }
    }
}

} // verus!
