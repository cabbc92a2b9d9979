//! What holds of the operations together.

use crate::archive::{
    entry_name_of, packed_entry, packs_at, refusal, tree_entries, Entry, Walked,
};
use crate::zip_writer::{zip_takes_name, MAX_ENTRY_BYTES};
use crate::path::{
    component_at, confined, final_name, final_name_at, final_name_span, has_parent_ref,
    is_current_dir, is_separator, joined, lemma_confined_has_name, lemma_final_name_exists,
    lemma_final_name_unique, lemma_resolved_is_confined, lemma_trim_leading,
    lemma_squeezed_extra_separator, lemma_trim_leading_of_two, name_at, parent_ref_at, resolved,
    squeezed, trim_leading,
};
use crate::upload::destination;
use vstd::prelude::*;

verus! {

/// Two dots in a row are a parent reference wherever they stand: whatever
/// comes before them and after them, the path is one that resolution
/// refuses.
pub proof fn lemma_parent_ref_anywhere(before: Seq<char>, after: Seq<char>)
    ensures
        has_parent_ref(before + seq!['.', '.'] + after),
{
    let s = before + seq!['.', '.'] + after;
    assert(parent_ref_at(s, before.len() as int));
}

/// Separators in front of a client path change nothing: with them or
/// without, the path is refused or it is not, and where it is not it
/// resolves to the same place.
pub proof fn lemma_leading_separators_ignored(sub: Seq<char>)
    ensures
        has_parent_ref(trim_leading(sub)) == has_parent_ref(sub),
        resolved(trim_leading(sub)) == resolved(sub),
    decreases sub.len(),
{
    if sub.len() > 0 && is_separator(sub[0]) {
        let rest = sub.drop_first();
        lemma_leading_separators_ignored(rest);
        if has_parent_ref(rest) {
            let i = choose|i: int| parent_ref_at(rest, i);
            assert(parent_ref_at(sub, i + 1));
        }
        if has_parent_ref(sub) {
            let i = choose|i: int| parent_ref_at(sub, i);
            assert(parent_ref_at(rest, i - 1));
        }
    } else {
        assert(trim_leading(sub) == sub);
    }
}

/// A file name as an upload should carry it: one component, not empty,
/// neither a single dot nor with two dots in a row.
pub open spec fn plain_name(name: Seq<char>) -> bool {
    &&& name.len() > 0
    &&& forall|k: int| 0 <= k < name.len() ==> !is_separator(#[trigger] name[k])
    &&& !is_current_dir(name)
    &&& !has_parent_ref(name)
}

/// A file uploaded under a plain name into a directory is the file that a
/// download of the directory's path with that name reaches, and that
/// download is offered under the uploaded name.
///
/// In full: for a directory path `dir` that resolution accepts, the path
/// made of `dir` and `name` is accepted too; it resolves to the very path
/// that the upload into `dir` stored the part named `name` at; that path
/// lies under the storage root; and its final name, which the download's
/// disposition carries, is `name`.
pub proof fn lemma_upload_then_download(dir: Seq<char>, name: Seq<char>)
    requires
        !has_parent_ref(dir),
        plain_name(name),
    ensures
        !has_parent_ref(joined(dir, name)),
        resolved(joined(dir, name)) == destination(resolved(dir), name),
        confined(destination(resolved(dir), name)),
        final_name(destination(resolved(dir), name)) == name,
{
    let asked = joined(dir, name);
    let kept = trim_leading(dir);
    lemma_trim_leading(dir);
    lemma_trim_leading(name);
    lemma_resolved_is_confined(dir);
    // The path that the client composes holds no parent reference.
    assert forall|i: int| !parent_ref_at(asked, i) by {
        if parent_ref_at(asked, i) {
            if i + 1 < dir.len() {
                assert(parent_ref_at(dir, i));
            } else if i >= asked.len() - name.len() {
                assert(parent_ref_at(name, i - (asked.len() - name.len())));
            }
        }
    }
    // Trimming reaches past the directory only if the directory is all
    // separators.
    let between = if dir.len() > 0 && !is_separator(dir.last()) {
        seq!['/']
    } else {
        Seq::<char>::empty()
    };
    assert(asked =~= (dir + between) + name);
    lemma_trim_leading_of_two(dir + between, name);
    lemma_trim_leading_of_two(dir, between);
    assert(trim_leading(name) == name);
    if kept.len() > 0 {
        assert(kept.last() == dir.last());
        assert(trim_leading(dir + between) == kept + between);
    } else {
        assert(between =~= Seq::<char>::empty()) by {
            if dir.len() > 0 {
                assert(is_separator(dir[dir.len() - 1]));
            }
        }
        assert(trim_leading(between) =~= between);
    }
    let stored = destination(resolved(dir), name);
    assert(resolved(asked) =~= stored);
    lemma_resolved_is_confined(asked);
    // The stored path ends in the name, behind a separator.
    let from = stored.len() - name.len();
    assert(stored.subrange(from, stored.len() as int) =~= name);
    assert forall|k: int| from <= k < stored.len() implies !is_separator(#[trigger] stored[k]) by {
        assert(stored[k] == name[k - from]);
    }
    assert(is_separator(stored[from - 1]));
    assert(component_at(stored, from, stored.len() as int));
    assert(final_name_at(stored, from, stored.len() as int));
    lemma_final_name_unique(stored, from, stored.len() as int);
}

/// A file uploaded under a plain name into a directory is the file that a
/// download reaches by the directory's path, a separator and the name,
/// whatever the directory's path looks like, and that download is offered
/// under the uploaded name.
///
/// In full: for a directory path `dest` that resolution accepts, the path
/// made of `dest`, a separator and `name` is accepted too; it resolves to
/// the path that the upload into `dest` stored the part named `name` at,
/// but for separators in a row, which the disk takes for one; and its
/// final name, which the download's disposition carries, is `name`.
pub proof fn lemma_download_reaches_upload(dest: Seq<char>, name: Seq<char>)
    requires
        !has_parent_ref(dest),
        plain_name(name),
    ensures
        !has_parent_ref(dest + seq!['/'] + name),
        squeezed(resolved(dest + seq!['/'] + name)) == squeezed(
            destination(resolved(dest), name),
        ),
        final_name(resolved(dest + seq!['/'] + name)) == name,
{
    let asked = dest + seq!['/'] + name;
    let kept = trim_leading(dest);
    lemma_trim_leading(dest);
    lemma_trim_leading(name);
    lemma_resolved_is_confined(dest);
    assert forall|i: int| !parent_ref_at(asked, i) by {
        if parent_ref_at(asked, i) {
            if i + 1 < dest.len() {
                assert(parent_ref_at(dest, i));
            } else if i > dest.len() {
                assert(parent_ref_at(name, i - dest.len() - 1));
            }
        }
    }
    lemma_resolved_is_confined(asked);
    assert(asked =~= dest + (seq!['/'] + name));
    lemma_trim_leading_of_two(dest, seq!['/'] + name);
    assert((seq!['/'] + name).drop_first() =~= name);
    assert(trim_leading(name) == name);
    let sent = resolved(asked);
    let stored = destination(resolved(dest), name);
    if kept.len() == 0 {
        assert(sent =~= stored);
    } else if !is_separator(kept.last()) {
        assert(sent =~= stored);
    } else {
        let front = resolved(dest);
        assert(sent =~= front + seq!['/'] + name);
        assert(stored =~= front + name);
        lemma_squeezed_extra_separator(front, name);
    }
    // The path sent ends in the name, behind a separator.
    let from = sent.len() - name.len();
    assert(sent.subrange(from, sent.len() as int) =~= name);
    assert forall|k: int| from <= k < sent.len() implies !is_separator(#[trigger] sent[k]) by {
        assert(sent[k] == name[k - from]);
    }
    assert(is_separator(sent[from - 1]));
    assert(component_at(sent, from, sent.len() as int));
    assert(final_name_at(sent, from, sent.len() as int));
    lemma_final_name_unique(sent, from, sent.len() as int);
}

/// Every name in the archive of a directory is the directory's own name
/// or begins with it and a separator: the archive unpacks into one folder
/// named after the directory.
pub proof fn lemma_entry_names_begin_with_directory(target: Seq<char>, path: Seq<char>)
    requires
        confined(target),
        entry_name_of(target, path) is Some,
    ensures
        ({
            let name = entry_name_of(target, path).unwrap();
            let n = final_name(target).len() as int;
            &&& n <= name.len()
            &&& name.take(n) == final_name(target)
            &&& (name.len() == n || is_separator(name[n]))
        }),
{
    lemma_confined_has_name(target);
    let witness = choose|i: int, j: int| name_at(target, i, j);
    lemma_final_name_exists(target, witness.0, witness.1);
    let (start, end) = final_name_span(target);
    assert(final_name_at(target, start, end));
    let name = path.skip(start);
    assert(name.take(end - start) =~= final_name(target)) by {
        assert forall|k: int| 0 <= k < end - start implies name[k] == target[start + k] by {
            assert(path.take(end)[start + k] == target.take(end)[start + k]);
        }
    }
}

/// The directory itself and every path that a walk finds below it enter
/// the directory's archive, under the directory's name followed by what
/// the path holds behind that name.
pub proof fn lemma_walked_paths_are_named(target: Seq<char>, below: Seq<char>)
    requires
        confined(target),
        final_name_span(target).1 < target.len() || below.len() == 0 || is_separator(below[0]),
    ensures
        entry_name_of(target, target + below) == Some(
            final_name(target) + target.skip(final_name_span(target).1) + below,
        ),
{
    lemma_confined_has_name(target);
    let witness = choose|i: int, j: int| name_at(target, i, j);
    lemma_final_name_exists(target, witness.0, witness.1);
    let (start, end) = final_name_span(target);
    assert(final_name_at(target, start, end));
    let path = target + below;
    assert(path.take(end) =~= target.take(end));
    assert(path.skip(start) =~= final_name(target) + target.skip(end) + below);
}

/// What one more walked path does to the entries of an archive: a regular
/// file that lies under the directory adds its entry behind the others,
/// and anything else, a directory above all, adds nothing.
pub proof fn lemma_tree_entries_grow(target: Seq<char>, items: Seq<Walked>, next: Walked)
    ensures
        tree_entries(target, items.push(next)) == match packed_entry(target, next) {
            Some(entry) => tree_entries(target, items).push(entry),
            None => tree_entries(target, items),
        },
{
    let more = items.push(next);
    assert(more.drop_last() =~= items);
    assert(more.last() == next);
    match packed_entry(target, next) {
        Some(entry) => {
            assert(tree_entries(target, items) + seq![entry] =~= tree_entries(target, items).push(
                entry,
            ));
        },
        None => {},
    }
}

/// What the walk found up to some point gives the front of the entries
/// that the whole walk gives.
pub proof fn lemma_tree_entries_front(target: Seq<char>, items: Seq<Walked>, i: int)
    requires
        0 <= i <= items.len(),
    ensures
        tree_entries(target, items.take(i)).len() <= tree_entries(target, items).len(),
        tree_entries(target, items).take(tree_entries(target, items.take(i)).len() as int)
            == tree_entries(target, items.take(i)),
    decreases items.len() - i,
{
    let part = tree_entries(target, items.take(i));
    let whole = tree_entries(target, items);
    if i < items.len() {
        lemma_tree_entries_front(target, items, i + 1);
        lemma_tree_entries_grow(target, items.take(i), items[i]);
        assert(items.take(i).push(items[i]) =~= items.take(i + 1));
        assert(whole.take(part.len() as int) =~= part);
    } else {
        assert(items.take(i) =~= items);
        assert(whole.take(whole.len() as int) =~= whole);
    }
}

/// Whether the writer takes the entry at index `k` of `entries` after
/// those before it: its name, and no more bytes than an entry holds.
pub open spec fn taken_at(entries: Seq<Entry>, k: int) -> bool {
    zip_takes_name(entries.take(k), entries[k].0) && entries[k].1.len() <= MAX_ENTRY_BYTES
}

/// Packing succeeds whenever every regular file that the walk found can
/// enter the archive and the writer takes each entry of the archive after
/// those before it.
pub proof fn lemma_pack_succeeds(target: Seq<char>, items: Seq<Walked>)
    requires
        forall|i: int|
            0 <= i < items.len() && (#[trigger] items[i]).is_file ==> refusal(
                target,
                items[i].path@,
            ) is None,
        forall|k: int|
            0 <= k < tree_entries(target, items).len() ==> #[trigger] taken_at(
                tree_entries(target, items),
                k,
            ),
    ensures
        forall|i: int| 0 <= i < items.len() ==> packs_at(target, items, i),
{
    let whole = tree_entries(target, items);
    assert forall|i: int| 0 <= i < items.len() implies packs_at(target, items, i) by {
        if items[i].is_file {
            let before = tree_entries(target, items.take(i));
            lemma_tree_entries_front(target, items, i);
            lemma_tree_entries_front(target, items, i + 1);
            lemma_tree_entries_grow(target, items.take(i), items[i]);
            assert(items.take(i).push(items[i]) =~= items.take(i + 1));
            let entry = packed_entry(target, items[i]).unwrap();
            let k = before.len() as int;
            assert(whole.take(k + 1)[k] == entry);
            assert(taken_at(whole, k));
        }
    }
}

/// Two parts of one upload are written to the same path only if they carry
/// the same name.
pub proof fn lemma_same_destination_same_name(target: Seq<char>, first: Seq<char>, second: Seq<char>)
    requires
        destination(target, first) == destination(target, second),
    ensures
        first == second,
{
    let a = destination(target, first);
    let b = destination(target, second);
    let lead = a.len() - first.len();
    assert(first =~= a.skip(lead));
    assert(second =~= b.skip(lead));
}

} // verus!
