//! Laws of the endpoint table: which entry decides the content served at a
//! key, and what a GET may answer.

use vstd::prelude::*;

use crate::handler::reply_matches;
use crate::keys::derived_key;
use crate::keys::index_name;
use crate::keys::is_json_name;
use crate::keys::lemma_index_key;
use crate::keys::stem_of;
use crate::keys::strip_dot_slash;
use crate::scanner::DirListingView;
use crate::scanner::FileEntryView;
use crate::scanner::apply_dirs;
use crate::scanner::apply_files;
use crate::scanner::table_for;

verus! {

/// No file entry strictly after position `(i, j)` — a later file of the same
/// directory, or any file of a later directory — derives key `k`.
pub open spec fn no_later_entry_derives(
    listings: Seq<DirListingView>,
    i: int,
    j: int,
    k: Seq<char>,
) -> bool {
    forall|p: int, q: int|
        0 <= p < listings.len() && 0 <= q < listings[p].files.len() && (p > i || (p == i && q > j))
            ==> derived_key(listings[p].directory, listings[p].files[q].name) != Some(k)
}

/// No file entry of any listing derives key `k`.
pub open spec fn no_entry_derives(listings: Seq<DirListingView>, k: Seq<char>) -> bool {
    forall|p: int, q: int|
        0 <= p < listings.len() && 0 <= q < listings[p].files.len()
            ==> derived_key(listings[p].directory, listings[p].files[q].name) != Some(k)
}

proof fn lemma_files_preserve(
    m: Map<Seq<char>, Seq<char>>,
    d: Seq<char>,
    files: Seq<FileEntryView>,
    k: Seq<char>,
)
    requires
        forall|q: int| 0 <= q < files.len() ==> derived_key(d, files[q].name) != Some(k),
    ensures
        apply_files(m, d, files).contains_key(k) == m.contains_key(k),
        m.contains_key(k) ==> apply_files(m, d, files)[k] == m[k],
    decreases files.len(),
{
    if files.len() > 0 {
        assert(forall|q: int|
            0 <= q < files.drop_last().len() ==> files.drop_last()[q] == files[q]);
        lemma_files_preserve(m, d, files.drop_last(), k);
        assert(derived_key(d, files.last().name) != Some(k));
    }
}

proof fn lemma_files_last_writer(
    m: Map<Seq<char>, Seq<char>>,
    d: Seq<char>,
    files: Seq<FileEntryView>,
    j: int,
    k: Seq<char>,
)
    requires
        0 <= j < files.len(),
        derived_key(d, files[j].name) == Some(k),
        forall|q: int| j < q < files.len() ==> derived_key(d, files[q].name) != Some(k),
    ensures
        apply_files(m, d, files).contains_key(k),
        apply_files(m, d, files)[k] == files[j].content,
    decreases files.len(),
{
    if j == files.len() - 1 {
    } else {
        assert(forall|q: int|
            0 <= q < files.drop_last().len() ==> files.drop_last()[q] == files[q]);
        lemma_files_last_writer(m, d, files.drop_last(), j, k);
        assert(derived_key(d, files.last().name) != Some(k));
    }
}

proof fn lemma_dirs_preserve(
    m: Map<Seq<char>, Seq<char>>,
    listings: Seq<DirListingView>,
    k: Seq<char>,
)
    requires
        no_entry_derives(listings, k),
    ensures
        apply_dirs(m, listings).contains_key(k) == m.contains_key(k),
        m.contains_key(k) ==> apply_dirs(m, listings)[k] == m[k],
    decreases listings.len(),
{
    if listings.len() > 0 {
        let rest = listings.drop_last();
        assert(forall|p: int| 0 <= p < rest.len() ==> rest[p] == listings[p]);
        lemma_dirs_preserve(m, rest, k);
        let last = listings.last();
        assert(forall|q: int| 0 <= q < last.files.len() ==> derived_key(last.directory,
            last.files[q].name) != Some(k)) by {
            assert(forall|q: int|
                0 <= q < last.files.len() ==> listings[listings.len() - 1].files[q]
                    == last.files[q]);
        }
        lemma_files_preserve(apply_dirs(m, rest), last.directory, last.files, k);
    }
}

proof fn lemma_dirs_last_writer(
    m: Map<Seq<char>, Seq<char>>,
    listings: Seq<DirListingView>,
    i: int,
    j: int,
    k: Seq<char>,
)
    requires
        0 <= i < listings.len(),
        0 <= j < listings[i].files.len(),
        derived_key(listings[i].directory, listings[i].files[j].name) == Some(k),
        no_later_entry_derives(listings, i, j, k),
    ensures
        apply_dirs(m, listings).contains_key(k),
        apply_dirs(m, listings)[k] == listings[i].files[j].content,
    decreases listings.len(),
{
    let rest = listings.drop_last();
    let last = listings.last();
    assert(forall|p: int| 0 <= p < rest.len() ==> rest[p] == listings[p]);
    if i == listings.len() - 1 {
        assert(forall|q: int| j < q < last.files.len() ==> derived_key(last.directory,
            last.files[q].name) != Some(k));
        lemma_files_last_writer(apply_dirs(m, rest), last.directory, last.files, j, k);
    } else {
        lemma_dirs_last_writer(m, rest, i, j, k);
        assert(forall|q: int| 0 <= q < last.files.len() ==> derived_key(last.directory,
            last.files[q].name) != Some(k));
        lemma_files_preserve(apply_dirs(m, rest), last.directory, last.files, k);
    }
}

/// Law: when several files derive the same key, the table holds exactly one
/// value for that key, and it is the content of the file processed last —
/// directories in configured order, files in listing order.
pub proof fn lemma_last_writer_wins(listings: Seq<DirListingView>, i: int, j: int, k: Seq<char>)
    requires
        0 <= i < listings.len(),
        0 <= j < listings[i].files.len(),
        derived_key(listings[i].directory, listings[i].files[j].name) == Some(k),
        no_later_entry_derives(listings, i, j, k),
    ensures
        table_for(listings).contains_key(k),
        table_for(listings)[k] == listings[i].files[j].content,
{
    lemma_dirs_last_writer(Map::empty(), listings, i, j, k);
}

/// Law: a file `stem.json` (stem neither empty nor `index`) in directory `D`
/// is served at key `D/stem` (with `D`'s leading `./` removed), with its
/// content byte for byte — provided no later file derives the same key.
pub proof fn lemma_plain_file_served(
    listings: Seq<DirListingView>,
    i: int,
    j: int,
    k: Seq<char>,
    status: int,
    body: Seq<char>,
)
    requires
        0 <= i < listings.len(),
        0 <= j < listings[i].files.len(),
        is_json_name(listings[i].files[j].name),
        listings[i].files[j].name != index_name(),
        k == strip_dot_slash(listings[i].directory) + seq!['/'] + stem_of(
            listings[i].files[j].name,
        ),
        no_later_entry_derives(listings, i, j, k),
        reply_matches(table_for(listings), k, status, body),
    ensures
        status == 200,
        body == listings[i].files[j].content,
{
    lemma_last_writer_wins(listings, i, j, k);
}

/// Law: a file `index.json` in directory `D` is served at key `D` (with the
/// leading `./` removed), with its content byte for byte — provided no later
/// file derives the same key.
pub proof fn lemma_index_file_served(
    listings: Seq<DirListingView>,
    i: int,
    j: int,
    k: Seq<char>,
    status: int,
    body: Seq<char>,
)
    requires
        0 <= i < listings.len(),
        0 <= j < listings[i].files.len(),
        listings[i].files[j].name == index_name(),
        k == strip_dot_slash(listings[i].directory),
        no_later_entry_derives(listings, i, j, k),
        reply_matches(table_for(listings), k, status, body),
    ensures
        status == 200,
        body == listings[i].files[j].content,
{
    lemma_index_key(listings[i].directory);
    lemma_last_writer_wins(listings, i, j, k);
}

/// Law: a directory that was seeded — its listing holds the one generated
/// file `index.json` — is served at its own key with the seed content,
/// provided no later file derives the same key.
pub proof fn lemma_seeded_directory_served(
    listings: Seq<DirListingView>,
    i: int,
    k: Seq<char>,
    status: int,
    body: Seq<char>,
)
    requires
        0 <= i < listings.len(),
        listings[i].files.len() == 1,
        listings[i].files[0].name == index_name(),
        k == strip_dot_slash(listings[i].directory),
        no_later_entry_derives(listings, i, 0, k),
        reply_matches(table_for(listings), k, status, body),
    ensures
        status == 200,
        body == listings[i].files[0].content,
{
    lemma_index_file_served(listings, i, 0, k, status, body);
}

/// Law: a GET for a path that no file of any configured directory derives is
/// answered with status 404 and an empty body.
pub proof fn lemma_unknown_path_rejected(
    listings: Seq<DirListingView>,
    k: Seq<char>,
    status: int,
    body: Seq<char>,
)
    requires
        no_entry_derives(listings, k),
        reply_matches(table_for(listings), k, status, body),
    ensures
        status == 404,
        body.len() == 0,
{
    lemma_dirs_preserve(Map::empty(), listings, k);
}

/// Law: the reply to a GET is a function of the table and the path alone —
/// two replies to the same path against the same table agree, so concurrent
/// lookups cannot leak content across requests.
pub proof fn lemma_lookup_deterministic(
    m: Map<Seq<char>, Seq<char>>,
    path: Seq<char>,
    status1: int,
    body1: Seq<char>,
    status2: int,
    body2: Seq<char>,
)
    requires
        reply_matches(m, path, status1, body1),
        reply_matches(m, path, status2, body2),
    ensures
        status1 == status2,
        body1 == body2,
{
}

} // verus!
