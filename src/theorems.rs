//! What holds of every run, stated over the decisions of `organizer`.

use vstd::prelude::*;
use vstd::utf8::{decode_utf8, encode_utf8, is_ascii_chars, valid_utf8};
use crate::category::{
    ascii_lower, category_table, lookup_from, lowered, no_extension, table_lookup,
};
use crate::extension::{dot_free, lemma_extension_of_split, lemma_no_extension, DOT};
use crate::organizer::{decision, moved_count, name_category, ActionView, EntryView, OrganizeError};

verus! {

broadcast use vstd::utf8::group_utf8_lib;

/// A file named `name` that sits directly in the root.
pub open spec fn root_file(name: Seq<u8>) -> EntryView {
    EntryView { name, parent: seq![], is_dir: false }
}

/// The category that the file `e` is sent to.
pub open spec fn destination(e: EntryView) -> Seq<char> {
    name_category(e.name).unwrap()
}

/// The directory `root / category`, as a child of the root.
pub open spec fn category_dir(category: Seq<char>) -> EntryView {
    EntryView { name: encode_utf8(category), parent: seq![], is_dir: true }
}

/// The file `e` after it was moved: same name, now in its category directory.
pub open spec fn relocated(e: EntryView) -> EntryView {
    EntryView { name: e.name, parent: seq![destination(e)], is_dir: false }
}

/// Every entry of `es` is a child of the root.
pub open spec fn children_of_root(es: Seq<EntryView>) -> bool {
    forall|i: int| 0 <= i < es.len() ==> (#[trigger] es[i]).parent == Seq::<Seq<char>>::empty()
}

/// Every entry of `es` is a directory.
pub open spec fn only_directories(es: Seq<EntryView>) -> bool {
    forall|i: int| 0 <= i < es.len() ==> (#[trigger] es[i]).is_dir
}

/// The number of entries of `es` that are files.
pub open spec fn file_count(es: Seq<EntryView>) -> nat
    decreases es.len(),
{
    if es.len() == 0 {
        0
    } else {
        file_count(es.drop_last()) + if es.last().is_dir {
            0nat
        } else {
            1nat
        }
    }
}

/// `second` lists what the root holds after a complete run over `first`:
/// each of its entries is a directory that `first` held, or the category
/// directory of a file of `first`.
pub open spec fn listing_after_run(first: Seq<EntryView>, second: Seq<EntryView>) -> bool {
    forall|j: int|
        0 <= j < second.len() ==> exists|i: int|
            0 <= i < first.len() && {
                ||| first[i].is_dir && #[trigger] second[j] == first[i]
                ||| !first[i].is_dir && second[j] == category_dir(destination(first[i]))
            }
}

proof fn lemma_singleton_not_root(c: Seq<char>)
    ensures
        seq![c] != Seq::<Seq<char>>::empty(),
{
    assert(seq![c].len() == 1);
}

proof fn lemma_table_keys_nonempty(i: int)
    requires
        0 <= i < category_table().len(),
    ensures
        category_table()[i].0.len() > 0,
{
    reveal_strlit("jpg");
    reveal_strlit("png");
    reveal_strlit("mp4");
    reveal_strlit("mkv");
    reveal_strlit("mp3");
    reveal_strlit("wav");
    reveal_strlit("pdf");
    reveal_strlit("docx");
    reveal_strlit("xlsx");
    reveal_strlit("pptx");
    reveal_strlit("csv");
    reveal_strlit("doc");
    reveal_strlit("zip");
    reveal_strlit("rar");
    reveal_strlit("7z");
    reveal_strlit("exe");
    reveal_strlit("msi");
}

proof fn lemma_lookup_key_nonempty(key: Seq<char>, i: int)
    requires
        0 <= i,
        lookup_from(category_table(), key, i) is Some,
    ensures
        key.len() > 0,
    decreases category_table().len() - i,
{
    if i < category_table().len() {
        if category_table()[i].0 == key {
            lemma_table_keys_nonempty(i);
        } else {
            lemma_lookup_key_nonempty(key, i + 1);
        }
    }
}

/// A file in the root whose extension, in any mix of ASCII upper and lower
/// case, is one of the table's, is moved into the table's category for it.
pub proof fn lemma_table_extension_any_case(stem: Seq<u8>, ext: Seq<char>, category: Seq<char>)
    requires
        stem.len() > 0,
        is_ascii_chars(ext),
        !ext.contains('.'),
        table_lookup(ascii_lower(ext)) == Some(category),
    ensures
        decision(root_file(stem + seq![DOT] + encode_utf8(ext))) == Ok::<
            ActionView,
            OrganizeError,
        >(ActionView::Move { category }),
{
    let bytes = encode_utf8(ext);
    vstd::utf8::is_ascii_chars_encode_utf8(ext);
    vstd::utf8::is_ascii_chars_nat_bound(ext);
    assert(dot_free(bytes)) by {
        assert forall|i: int| 0 <= i < bytes.len() implies bytes[i] != DOT by {
            assert(ext[i] as u8 == bytes[i]);
            assert(ext[i] != '.');
        }
    }
    lemma_extension_of_split(stem, bytes);
    lemma_lookup_key_nonempty(ascii_lower(ext), 0);
    assert(ext.len() > 0);
    lemma_singleton_not_root(category);
}

/// A file in the root whose extension is text that the table does not list
/// once lowercased is moved into a directory named by that lowercase text.
pub proof fn lemma_unlisted_extension(stem: Seq<u8>, ext: Seq<u8>)
    requires
        stem.len() > 0,
        ext.len() > 0,
        dot_free(ext),
        valid_utf8(ext),
        table_lookup(lowered(decode_utf8(ext))) is None,
    ensures
        decision(root_file(stem + seq![DOT] + ext)) == Ok::<ActionView, OrganizeError>(
            ActionView::Move { category: lowered(decode_utf8(ext)) },
        ),
{
    lemma_extension_of_split(stem, ext);
    assert(decode_utf8(ext).len() > 0);
    lemma_singleton_not_root(lowered(decode_utf8(ext)));
}

/// A file in the root with no dot after the first byte of its name (so also
/// a name like `.hidden`) is moved into the "No Extension" directory.
pub proof fn lemma_file_without_extension(name: Seq<u8>)
    requires
        forall|i: int| 0 < i < name.len() ==> name[i] != DOT,
    ensures
        decision(root_file(name)) == Ok::<ActionView, OrganizeError>(
            ActionView::Move { category: no_extension() },
        ),
{
    lemma_no_extension(name);
    lemma_singleton_not_root(no_extension());
}

/// A file in the root whose name ends with a dot after a non-empty stem is
/// moved into the "No Extension" directory.
pub proof fn lemma_trailing_dot(stem: Seq<u8>)
    requires
        stem.len() > 0,
    ensures
        decision(root_file(stem + seq![DOT])) == Ok::<ActionView, OrganizeError>(
            ActionView::Move { category: no_extension() },
        ),
{
    lemma_extension_of_split(stem, Seq::empty());
    assert(stem + seq![DOT] + Seq::<u8>::empty() =~= stem + seq![DOT]);
    lemma_singleton_not_root(no_extension());
}

/// A directory is skipped, whatever its name and wherever it sits.
pub proof fn lemma_directory_is_skipped(e: EntryView)
    requires
        e.is_dir,
    ensures
        decision(e) == Ok::<ActionView, OrganizeError>(ActionView::SkipDirectory),
{
}

/// A run over a listing of directories only decides on every entry, skips
/// each one, and moves nothing.
pub proof fn lemma_directories_only(es: Seq<EntryView>)
    requires
        only_directories(es),
    ensures
        forall|i: int|
            0 <= i < es.len() ==> #[trigger] decision(es[i]) == Ok::<ActionView, OrganizeError>(
                ActionView::SkipDirectory,
            ),
        moved_count(es) == 0,
    decreases es.len(),
{
    if es.len() > 0 {
        let rest = es.drop_last();
        assert(only_directories(rest)) by {
            assert forall|i: int| 0 <= i < rest.len() implies (#[trigger] rest[i]).is_dir by {
                assert(rest[i] == es[i]);
            }
        }
        lemma_directories_only(rest);
        assert(es.last() == es[es.len() - 1]);
    }
}

/// In a run over the root that decides on every entry, every file is moved,
/// so the number of files moved is the number of files listed.
pub proof fn lemma_every_file_moves(first: Seq<EntryView>)
    requires
        children_of_root(first),
        forall|i: int| 0 <= i < first.len() ==> (#[trigger] decision(first[i])) is Ok,
    ensures
        forall|i: int|
            0 <= i < first.len() && !first[i].is_dir ==> #[trigger] decision(first[i])
                == Ok::<ActionView, OrganizeError>(
                ActionView::Move { category: destination(first[i]) },
            ),
        moved_count(first) == file_count(first),
    decreases first.len(),
{
    assert forall|i: int| 0 <= i < first.len() && !first[i].is_dir implies #[trigger] decision(
        first[i],
    ) == Ok::<ActionView, OrganizeError>(ActionView::Move { category: destination(first[i]) }) by {
        assert(decision(first[i]) is Ok);
        assert(first[i].parent == Seq::<Seq<char>>::empty());
        lemma_singleton_not_root(destination(first[i]));
    }
    if first.len() > 0 {
        let rest = first.drop_last();
        assert forall|i: int| 0 <= i < rest.len() implies (#[trigger] decision(rest[i])) is Ok by {
            assert(rest[i] == first[i]);
        }
        assert(children_of_root(rest)) by {
            assert forall|i: int| 0 <= i < rest.len() implies (#[trigger] rest[i]).parent
                == Seq::<Seq<char>>::empty() by {
                assert(rest[i] == first[i]);
            }
        }
        lemma_every_file_moves(rest);
        assert(first.last() == first[first.len() - 1]);
    }
}

/// Running twice: after a complete run over the root, a second run over what
/// the root then holds decides on every entry, skips each one and moves
/// nothing; and each file moved by the first run, seen in its category
/// directory, is skipped as already organized.
pub proof fn lemma_second_run_is_idle(first: Seq<EntryView>, second: Seq<EntryView>)
    requires
        children_of_root(first),
        forall|i: int| 0 <= i < first.len() ==> (#[trigger] decision(first[i])) is Ok,
        listing_after_run(first, second),
    ensures
        forall|j: int|
            0 <= j < second.len() ==> #[trigger] decision(second[j]) == Ok::<
                ActionView,
                OrganizeError,
            >(ActionView::SkipDirectory),
        moved_count(second) == 0,
        forall|i: int|
            0 <= i < first.len() && !first[i].is_dir ==> #[trigger] decision(relocated(first[i]))
                == Ok::<ActionView, OrganizeError>(ActionView::SkipOrganized),
{
    assert(only_directories(second)) by {
        assert forall|j: int| 0 <= j < second.len() implies (#[trigger] second[j]).is_dir by {
            let i = choose|i: int|
                0 <= i < first.len() && {
                    ||| first[i].is_dir && #[trigger] second[j] == first[i]
                    ||| !first[i].is_dir && second[j] == category_dir(destination(first[i]))
                };
        }
    }
    lemma_directories_only(second);
    assert forall|i: int| 0 <= i < first.len() && !first[i].is_dir implies #[trigger] decision(
        relocated(first[i]),
    ) == Ok::<ActionView, OrganizeError>(ActionView::SkipOrganized) by {
        assert(decision(first[i]) is Ok);
    }
}

} // verus!
