//! Table construction from directory listings.
//!
//! The caller enumerates each configured directory and hands over, in
//! configured order, the directory's path together with the names and
//! contents of its immediate regular files. The scanner derives an endpoint
//! key for every JSON file and inserts its content into the table, later
//! entries overwriting earlier ones that derive the same key.

use vstd::prelude::*;

use crate::keys::derive_key;
use crate::keys::derived_key;
use crate::keys::index_name;
use crate::table::EndpointTable;

verus! {

/// One regular file of a directory: its bare name and its full content.
pub struct FileEntry {
    pub name: String,
    pub content: String,
}

/// The ghost image of a file entry.
pub struct FileEntryView {
    pub name: Seq<char>,
    pub content: Seq<char>,
}

impl View for FileEntry {
    type V = FileEntryView;

    open spec fn view(&self) -> FileEntryView {
        FileEntryView { name: self.name@, content: self.content@ }
    }
}

/// One configured directory with its immediate regular files, in the order
/// the filesystem enumerated them.
pub struct DirListing {
    pub directory: String,
    pub files: Vec<FileEntry>,
}

/// The ghost image of a directory listing.
pub struct DirListingView {
    pub directory: Seq<char>,
    pub files: Seq<FileEntryView>,
}

impl View for DirListing {
    type V = DirListingView;

    open spec fn view(&self) -> DirListingView {
        DirListingView {
            directory: self.directory@,
            files: self.files@.map_values(|f: FileEntry| f@),
        }
    }
}

/// The table after one file entry: unchanged when the file derives no key,
/// otherwise the derived key now holds the file's content.
pub open spec fn apply_entry(
    m: Map<Seq<char>, Seq<char>>,
    dir: Seq<char>,
    f: FileEntryView,
) -> Map<Seq<char>, Seq<char>> {
    match derived_key(dir, f.name) {
        Some(k) => m.insert(k, f.content),
        None => m,
    }
}

/// The table after the files of one directory, processed in listing order.
pub open spec fn apply_files(
    m: Map<Seq<char>, Seq<char>>,
    dir: Seq<char>,
    files: Seq<FileEntryView>,
) -> Map<Seq<char>, Seq<char>>
    decreases files.len(),
{
    if files.len() == 0 {
        m
    } else {
        apply_entry(apply_files(m, dir, files.drop_last()), dir, files.last())
    }
}

/// The table after a sequence of directory listings, in configured order.
pub open spec fn apply_dirs(
    m: Map<Seq<char>, Seq<char>>,
    listings: Seq<DirListingView>,
) -> Map<Seq<char>, Seq<char>>
    decreases listings.len(),
{
    if listings.len() == 0 {
        m
    } else {
        apply_files(
            apply_dirs(m, listings.drop_last()),
            listings.last().directory,
            listings.last().files,
        )
    }
}

/// The endpoint table that a sequence of directory listings denotes.
pub open spec fn table_for(listings: Seq<DirListingView>) -> Map<Seq<char>, Seq<char>> {
    apply_dirs(Map::empty(), listings)
}

/// Processes one file of `directory`: inserts its content under the derived
/// endpoint key, or leaves the table unchanged when no key is derived.
pub fn process_entry(table: &mut EndpointTable, directory: &str, name: &str, content: String)
    requires
        old(table).wf(),
    ensures
        final(table).wf(),
        final(table)@ == apply_entry(
            old(table)@,
            directory@,
            (FileEntryView { name: name@, content: content@ }),
        ),
{
    match derive_key(directory, name) {
        Some(key) => table.insert(key, content),
        None => (),
    }
}

/// Processes every file of one directory listing, in order.
pub fn process_directory(table: &mut EndpointTable, listing: &DirListing)
    requires
        old(table).wf(),
    ensures
        final(table).wf(),
        final(table)@ == apply_files(old(table)@, listing@.directory, listing@.files),
{
    let ghost d = listing@.directory;
    let ghost fs = listing@.files;
    let n = listing.files.len();
    let mut j: usize = 0;
    while j < n
        invariant
            n == listing.files.len(),
            j <= n,
            d == listing@.directory,
            fs == listing@.files,
            table.wf(),
            table@ == apply_files(old(table)@, d, fs.take(j as int)),
        decreases n - j,
    {
        let f = &listing.files[j];
        process_entry(table, listing.directory.as_str(), f.name.as_str(), f.content.clone());
        proof {
            assert(fs.take(j as int + 1).drop_last() =~= fs.take(j as int));
            assert(fs.take(j as int + 1).last() == fs[j as int]);
        }
        j += 1;
    }
    proof {
        assert(fs.take(n as int) =~= fs);
    }
}

/// Builds the endpoint table for a sequence of directory listings, processed
/// in configured order.
pub fn build_table(listings: &Vec<DirListing>) -> (r: EndpointTable)
    ensures
        r.wf(),
        r@ == table_for(listings@.map_values(|l: DirListing| l@)),
{
    let ghost ls = listings@.map_values(|l: DirListing| l@);
    let mut table = EndpointTable::new();
    let n = listings.len();
    let mut i: usize = 0;
    while i < n
        invariant
            n == listings.len(),
            i <= n,
            ls == listings@.map_values(|l: DirListing| l@),
            table.wf(),
            table@ == apply_dirs(Map::empty(), ls.take(i as int)),
        decreases n - i,
    {
        process_directory(&mut table, &listings[i]);
        proof {
            assert(ls.take(i as int + 1).drop_last() =~= ls.take(i as int));
            assert(ls.take(i as int + 1).last() == ls[i as int]);
        }
        i += 1;
    }
    proof {
        assert(ls.take(n as int) =~= ls);
    }
    table
}

/// The listing used for a directory that did not exist yet: it is created
/// with a single seed file `index.json` holding the provided content.
pub fn seeded_listing(directory: String, seed: String) -> (r: DirListing)
    ensures
        r@.directory == directory@,
        r@.files.len() == 1,
        r@.files[0].name == index_name(),
        r@.files[0].content == seed@,
{
    let name = "index.json".to_owned();
    proof {
        reveal_strlit("index.json");
        assert(name@ =~= index_name());
    }
    let mut files: Vec<FileEntry> = Vec::new();
    files.push(FileEntry { name, content: seed });
    DirListing { directory, files }
}

} // verus!
