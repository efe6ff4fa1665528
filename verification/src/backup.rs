//! Names of database backups, and which of them are kept.

use crate::calendar;
use crate::rows;
use crate::rows::sort_rows;
use crate::text;
use crate::text::{chars_of, ends_with_chars, starts_with_chars, text_before};
use vstd::prelude::*;
use vstd::string::StringExecFns;

verus! {

/// How many backups are kept.
pub const BACKUPS_KEPT: usize = 3;

/// The name of the backup that is made at the given Unix seconds.
pub fn backup_file_name(secs: i64) -> (r: String)
    ensures
        r@ == "bookstack-mcp-backup-"@ + calendar::stamp_text(calendar::the_moment(secs as int))
            + ".db"@,
{
    let stamp = calendar::stamp_at(secs);
    let mut name = String::new();
    name.append("bookstack-mcp-backup-");
    name.append(stamp.as_str());
    name.append(".db");
    assert(name@ =~= "bookstack-mcp-backup-"@ + calendar::stamp_text(
        calendar::the_moment(secs as int),
    ) + ".db"@);
    name
}

/// The file is a backup, by its name.
pub open spec fn is_backup(name: Seq<char>) -> bool {
    text::starts_with(name, "bookstack-mcp-backup-"@) && text::ends_with(name, ".db"@)
}

/// A name comes before one that it precedes.
pub open spec fn earlier() -> spec_fn(Seq<char>, Seq<char>) -> bool {
    |a: Seq<char>, b: Seq<char>| text::precedes(a, b)
}

/// The backups among some files.
pub open spec fn backups(files: Seq<Seq<char>>) -> Seq<Seq<char>> {
    files.filter(|name: Seq<char>| is_backup(name))
}

/// The backups among some files, from the oldest to the newest: the time stamp
/// makes the order of the names that of time.
pub open spec fn backups_in_order(files: Seq<Seq<char>>) -> Seq<Seq<char>> {
    rows::sorted(backups(files), earlier())
}

/// The backups to remove: all but the newest three.
pub open spec fn outdated(files: Seq<Seq<char>>) -> Seq<Seq<char>> {
    let all = backups_in_order(files);
    if all.len() > BACKUPS_KEPT {
        all.take(all.len() - BACKUPS_KEPT)
    } else {
        Seq::empty()
    }
}

/// Tells whether a file is a backup.
fn has_backup_name(name: &str) -> (r: bool)
    ensures
        r == is_backup(name@),
{
    let chars = chars_of(name);
    let prefix = chars_of("bookstack-mcp-backup-");
    let suffix = chars_of(".db");
    starts_with_chars(chars.as_slice(), prefix.as_slice()) && ends_with_chars(
        chars.as_slice(),
        suffix.as_slice(),
    )
}

/// The files of a backup directory that are to be removed, oldest first.
pub fn outdated_backups(files: &Vec<String>) -> (r: Vec<String>)
    ensures
        text::string_texts(r@) == outdated(text::string_texts(files@)),
{
    let ghost all = text::string_texts(files@);
    let mut sorted: Vec<String> = Vec::new();
    let mut i: usize = 0;
    proof {
        reveal(Seq::filter);
        assert(text::string_texts(sorted@) =~= backups(all.take(0)));
    }
    while i < files.len()
        invariant
            i <= files@.len(),
            all == text::string_texts(files@),
            text::string_texts(sorted@) == backups(all.take(i as int)),
        decreases files@.len() - i,
    {
        proof {
            reveal(Seq::filter);
            assert(all.take(i + 1).drop_last() =~= all.take(i as int));
            assert(all.take(i + 1).last() == all[i as int]);
        }
        let name = files[i].as_str();
        assert(all[i as int] == name@);
        if has_backup_name(name) {
            let ghost before = text::string_texts(sorted@);
            sorted.push(name.to_owned());
            assert(text::string_texts(sorted@) =~= before.push(name@));
        }
        i += 1;
    }
    assert(all.take(i as int) =~= all);
    let ghost found = sorted@;
    let ghost less = |a: String, b: String| text::precedes(a@, b@);
    let ghost value = |s: String| s@;
    let is_less = |a: &String, b: &String| -> (c: bool)
        ensures
            c == text::precedes(a@, b@),
    {
        text_before(a.as_str(), b.as_str())
    };
    sort_rows(&mut sorted, is_less, Ghost(less));
    proof {
        rows::lemma_sorted_map(found, less, value, earlier());
        assert(found.map_values(value) =~= text::string_texts(found));
        assert(sorted@.map_values(value) =~= text::string_texts(sorted@));
    }
    let ghost in_order = text::string_texts(sorted@);
    assert(in_order == backups_in_order(all));
    let kept: usize = if sorted.len() > BACKUPS_KEPT {
        sorted.len() - BACKUPS_KEPT
    } else {
        0
    };
    sorted.truncate(kept);
    assert(text::string_texts(sorted@) =~= outdated(all));
    sorted
}

/// Backups are in the order of their names, each of them is one, and none is
/// missing.
pub proof fn law_backups_in_order(files: Seq<Seq<char>>)
    ensures
        forall|i: int, j: int|
            0 <= i < j < backups_in_order(files).len() ==> !text::precedes(
                #[trigger] backups_in_order(files)[j],
                #[trigger] backups_in_order(files)[i],
            ),
        forall|i: int|
            0 <= i < backups_in_order(files).len() ==> is_backup(
                #[trigger] backups_in_order(files)[i],
            ),
        backups_in_order(files).to_multiset() =~= backups(files).to_multiset(),
{
    let found = backups(files);
    let all = backups_in_order(files);
    rows::lemma_text_order(earlier(), |name: Seq<char>| name);
    rows::law_sorted(found, earlier());
    rows::lemma_sorted_from(found, earlier());
    assert forall|i: int, j: int| 0 <= i < j < all.len() implies !text::precedes(
        #[trigger] all[j],
        #[trigger] all[i],
    ) by {
        assert(!earlier()(all[j], all[i]));
    }
    assert forall|i: int| 0 <= i < all.len() implies is_backup(#[trigger] all[i]) by {
        broadcast use vstd::seq_lib::group_filter_ensures;

        assert(found.contains(all[i]));
        let k = choose|k: int| 0 <= k < found.len() && found[k] == all[i];
        assert(is_backup(found[k]));
    }
}

} // verus!
