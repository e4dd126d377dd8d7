//! A model of a sysfs-style device-class directory tree as plain values.
//!
//! A device class is a directory of subdirectories, one per device instance;
//! each subdirectory holds plain-text attribute files. The binding and
//! accessor logic is verified over this model; an unverified embedding is
//! responsible for filling it from the real filesystem and for mirroring
//! writes back.

use vstd::prelude::*;

verus! {

/// One attribute file: a name and its full textual contents.
pub struct AttrFile {
    pub name: String,
    pub contents: String,
}

/// The mathematical value of an [`AttrFile`].
pub struct AttrFileView {
    pub name: Seq<char>,
    pub contents: Seq<char>,
}

impl View for AttrFile {
    type V = AttrFileView;

    open spec fn view(&self) -> AttrFileView {
        AttrFileView { name: self.name@, contents: self.contents@ }
    }
}

impl Clone for AttrFile {
    fn clone(&self) -> (r: Self)
        ensures
            r == *self,
    {
        AttrFile { name: self.name.clone(), contents: self.contents.clone() }
    }
}

/// One device-class subdirectory: its base name and its attribute files.
pub struct DeviceDir {
    pub name: String,
    pub files: Vec<AttrFile>,
}

/// The mathematical value of a [`DeviceDir`].
pub struct DeviceDirView {
    pub name: Seq<char>,
    pub files: Seq<AttrFileView>,
}

impl View for DeviceDir {
    type V = DeviceDirView;

    open spec fn view(&self) -> DeviceDirView {
        DeviceDirView { name: self.name@, files: self.files@.map_values(|f: AttrFile| f@) }
    }
}

impl Clone for DeviceDir {
    fn clone(&self) -> (r: Self)
        ensures
            r@ == self@,
    {
        let mut files: Vec<AttrFile> = Vec::new();
        let mut i: usize = 0;
        while i < self.files.len()
            invariant
                i <= self.files.len(),
                files@ =~= self.files@.take(i as int),
            decreases self.files.len() - i,
        {
            files.push(self.files[i].clone());
            i += 1;
        }
        assert(files@ =~= self.files@);
        let r = DeviceDir { name: self.name.clone(), files };
        assert(r@.files =~= self@.files);
        r
    }
}

/// The listing of a device-class root directory. `entries` is `None` when the
/// root could not be listed (for instance, it does not exist).
pub struct DirListing {
    pub entries: Option<Vec<DeviceDir>>,
}

impl View for DirListing {
    type V = Option<Seq<DeviceDirView>>;

    open spec fn view(&self) -> Option<Seq<DeviceDirView>> {
        match self.entries {
            None => None,
            Some(es) => Some(es@.map_values(|d: DeviceDir| d@)),
        }
    }
}

/// The contents of the first file named `name`, or `None` when no file of the
/// directory carries that name.
pub open spec fn lookup_attr(files: Seq<AttrFileView>, name: Seq<char>) -> Option<Seq<char>>
    decreases files.len(),
{
    if files.len() == 0 {
        None
    } else if files[0].name == name {
        Some(files[0].contents)
    } else {
        lookup_attr(files.skip(1), name)
    }
}

/// `files` with the contents of the first file named `name` replaced by
/// `value`; unchanged when no file carries that name.
pub open spec fn update_attr(
    files: Seq<AttrFileView>,
    name: Seq<char>,
    value: Seq<char>,
) -> Seq<AttrFileView>
    decreases files.len(),
{
    if files.len() == 0 {
        files
    } else if files[0].name == name {
        seq![AttrFileView { name: files[0].name, contents: value }] + files.skip(1)
    } else {
        seq![files[0]] + update_attr(files.skip(1), name, value)
    }
}

/// A lookup skips any prefix of files whose names all differ from `name`.
pub proof fn lemma_lookup_skip(files: Seq<AttrFileView>, name: Seq<char>, i: int)
    requires
        0 <= i <= files.len(),
        forall|k: int| 0 <= k < i ==> files[k].name != name,
    ensures
        lookup_attr(files, name) == lookup_attr(files.skip(i), name),
    decreases i,
{
    if i == 0 {
        assert(files.skip(0) =~= files);
    } else {
        assert(files[0].name != name);
        assert(forall|k: int| 0 <= k < i - 1 ==> #[trigger] files.skip(1)[k].name != name) by {
            assert(forall|k: int| 0 <= k < i - 1 ==> files.skip(1)[k] == files[k + 1]);
        }
        lemma_lookup_skip(files.skip(1), name, i - 1);
        assert(files.skip(1).skip(i - 1) =~= files.skip(i));
    }
}

/// When `j` is the first index whose file is named `name`, an update replaces
/// exactly that file's contents.
pub proof fn lemma_update_at_first(
    files: Seq<AttrFileView>,
    name: Seq<char>,
    value: Seq<char>,
    j: int,
)
    requires
        0 <= j < files.len(),
        files[j].name == name,
        forall|k: int| 0 <= k < j ==> files[k].name != name,
    ensures
        update_attr(files, name, value) =~= files.update(
            j,
            AttrFileView { name: files[j].name, contents: value },
        ),
    decreases j,
{
    if j == 0 {
    } else {
        lemma_update_at_first(files.skip(1), name, value, j - 1);
    }
}

/// After an update of `name`, looking `name` up yields the new value, and
/// every other name reads as before.
pub proof fn lemma_lookup_after_update(
    files: Seq<AttrFileView>,
    name: Seq<char>,
    value: Seq<char>,
    other: Seq<char>,
)
    requires
        lookup_attr(files, name) is Some,
    ensures
        lookup_attr(update_attr(files, name, value), name) == Some(value),
        other != name ==> lookup_attr(update_attr(files, name, value), other) == lookup_attr(
            files,
            other,
        ),
    decreases files.len(),
{
    if files.len() > 0 {
        if files[0].name == name {
            let updated = update_attr(files, name, value);
            assert(updated.skip(1) =~= files.skip(1));
        } else {
            lemma_lookup_after_update(files.skip(1), name, value, other);
            let updated = update_attr(files, name, value);
            assert(updated.skip(1) =~= update_attr(files.skip(1), name, value));
        }
    }
}

/// The position of the first file named `name`, or `None` when the directory
/// holds no file of that name; relates the search to [`lookup_attr`].
pub fn find_attr(files: &Vec<AttrFile>, name: &str) -> (r: Option<usize>)
    ensures
        match r {
            Some(j) => {
                &&& j < files@.len()
                &&& files@[j as int]@.name == name@
                &&& forall|k: int| 0 <= k < j ==> files@[k]@.name != name@
                &&& lookup_attr(files@.map_values(|f: AttrFile| f@), name@) == Some(
                    files@[j as int]@.contents,
                )
            },
            None => lookup_attr(files@.map_values(|f: AttrFile| f@), name@) is None,
        },
{
    let ghost fvs = files@.map_values(|f: AttrFile| f@);
    let mut j: usize = 0;
    while j < files.len()
        invariant
            j <= files@.len(),
            fvs == files@.map_values(|f: AttrFile| f@),
            forall|k: int| 0 <= k < j ==> fvs[k].name != name@,
        decreases files@.len() - j,
    {
        if crate::text::str_eq(files[j].name.as_str(), name) {
            proof {
                assert(forall|k: int| 0 <= k < j ==> #[trigger] files@[k]@ == fvs[k]);
                assert(fvs[j as int] == files@[j as int]@);
                lemma_lookup_skip(fvs, name@, j as int);
                assert(fvs.skip(j as int)[0] == fvs[j as int]);
                assert(lookup_attr(fvs.skip(j as int), name@) == Some(fvs[j as int].contents));
            }
            return Some(j);
        }
        j += 1;
    }
    proof {
        lemma_lookup_skip(fvs, name@, files@.len() as int);
        assert(fvs.skip(fvs.len() as int) =~= Seq::<AttrFileView>::empty());
    }
    None
}

} // verus!
