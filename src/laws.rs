//! Laws that relate the outcomes of the journal's operations.
use vstd::prelude::*;
use crate::address::entry_address;
use crate::layout::{utf8, MAX_CONTENT_LEN, MAX_TITLE_LEN};
use crate::store::{
    create_outcome, delete_outcome, update_outcome, CreateJournalEntry, DeleteJournalEntry, EntryView,
    ErrorCode, Signer, UpdateJournalEntry,
};

verus! {

/// The address of a new entry is derived from its owner and its title alone:
/// whatever the content, a create that succeeds adds exactly one key,
/// `entry_address(program, owner, title)`, and stores the entry there.
pub proof fn lemma_address_ignores_content(
    entries: Map<Seq<u8>, EntryView>,
    program: Seq<u8>,
    ctx: CreateJournalEntry,
    title: Seq<char>,
    content: Seq<char>,
)
    requires
        create_outcome(entries, ctx, title, content, entry_address(program, ctx.owner.key@, title)) is Ok,
    ensures
        ({
            let a = entry_address(program, ctx.owner.key@, title);
            let after = create_outcome(entries, ctx, title, content, a)->Ok_0;
            &&& a is Some
            &&& after.dom() == entries.dom().insert(a->Some_0)
            &&& after[a->Some_0] == EntryView { owner: ctx.owner.key@, title, content }
        }),
{
}

/// A create never overwrites: at an address that holds an entry it fails,
/// and a signed create whose title is within its cap fails with
/// `AddressInUse`, whatever its content.
pub proof fn lemma_no_overwrite(
    entries: Map<Seq<u8>, EntryView>,
    ctx: CreateJournalEntry,
    title: Seq<char>,
    content: Seq<char>,
    a: Seq<u8>,
)
    requires
        entries.contains_key(a),
    ensures
        create_outcome(entries, ctx, title, content, Some(a)) is Err,
        ctx.owner.is_signer && utf8(title).len() <= MAX_TITLE_LEN
            ==> create_outcome(entries, ctx, title, content, Some(a)) == Err::<Map<Seq<u8>, EntryView>, ErrorCode>(
            ErrorCode::AddressInUse),
{
}

/// Only the stored owner may update or delete an entry: a signed request of
/// any other caller that targets it fails with `Unauthorized`, whatever the
/// new content.
pub proof fn lemma_ownership_gate(
    entries: Map<Seq<u8>, EntryView>,
    owner: [u8; 32],
    caller: Signer,
    title: Seq<char>,
    content: Seq<char>,
    a: Seq<u8>,
)
    requires
        entries.contains_key(a),
        entries[a].owner != caller.key@,
        caller.is_signer,
        utf8(title).len() <= MAX_TITLE_LEN,
    ensures
        update_outcome(entries, UpdateJournalEntry { owner, caller }, title, content, Some(a)) == Err::<
            Map<Seq<u8>, EntryView>,
            ErrorCode,
        >(ErrorCode::Unauthorized),
        delete_outcome(entries, DeleteJournalEntry { owner, caller }, title, Some(a)) == Err::<
            Map<Seq<u8>, EntryView>,
            ErrorCode,
        >(ErrorCode::Unauthorized),
{
}

/// The caps on the fields. A signed create with a title over its cap, or
/// with a content over its cap at a free address, fails with `FieldTooLong`,
/// as does the owner's update with a content over its cap. Fields at or
/// under their caps are never refused for their length: a signed create at a
/// free address succeeds, and so does the owner's update.
pub proof fn lemma_length_caps(
    entries: Map<Seq<u8>, EntryView>,
    owner: [u8; 32],
    title: Seq<char>,
    content: Seq<char>,
    a: Seq<u8>,
)
    ensures
        ({
            let signer = Signer { key: owner, is_signer: true };
            let cctx = CreateJournalEntry { owner: signer };
            let uctx = UpdateJournalEntry { owner, caller: signer };
            let created = create_outcome(entries, cctx, title, content, Some(a));
            let updated = update_outcome(entries, uctx, title, content, Some(a));
            let too_long = Err::<Map<Seq<u8>, EntryView>, ErrorCode>(ErrorCode::FieldTooLong);
            let owned = entries.contains_key(a) && entries[a].owner == owner@;
            &&& utf8(title).len() > MAX_TITLE_LEN ==> created == too_long
            &&& !entries.contains_key(a) && utf8(content).len() > MAX_CONTENT_LEN ==> created == too_long
            &&& utf8(title).len() <= MAX_TITLE_LEN && owned && utf8(content).len() > MAX_CONTENT_LEN
                ==> updated == too_long
            &&& utf8(title).len() <= MAX_TITLE_LEN && utf8(content).len() <= MAX_CONTENT_LEN
                && !entries.contains_key(a) ==> created == Ok::<Map<Seq<u8>, EntryView>, ErrorCode>(
                entries.insert(a, EntryView { owner: owner@, title, content }))
            &&& utf8(title).len() <= MAX_TITLE_LEN && utf8(content).len() <= MAX_CONTENT_LEN && owned
                ==> updated is Ok
        }),
{
}

/// The life of an entry: create, update, delete, create again. The owner
/// creates it with `c1`, replaces that with `c2` and finds owner, title and
/// `c2`; after the delete the address is free and the entries are as before;
/// a new create with `c3` then succeeds with a fresh entry.
pub proof fn lemma_lifecycle(
    entries: Map<Seq<u8>, EntryView>,
    owner: [u8; 32],
    title: Seq<char>,
    c1: Seq<char>,
    c2: Seq<char>,
    c3: Seq<char>,
    a: Seq<u8>,
)
    requires
        !entries.contains_key(a),
        utf8(title).len() <= MAX_TITLE_LEN,
        utf8(c1).len() <= MAX_CONTENT_LEN,
        utf8(c2).len() <= MAX_CONTENT_LEN,
        utf8(c3).len() <= MAX_CONTENT_LEN,
    ensures
        ({
            let signer = Signer { key: owner, is_signer: true };
            let created = create_outcome(entries, CreateJournalEntry { owner: signer }, title, c1, Some(a));
            &&& created is Ok
            &&& created->Ok_0[a] == EntryView { owner: owner@, title, content: c1 }
            &&& {
                let updated = update_outcome(
                    created->Ok_0,
                    UpdateJournalEntry { owner, caller: signer },
                    title,
                    c2,
                    Some(a),
                );
                &&& updated is Ok
                &&& updated->Ok_0[a] == EntryView { owner: owner@, title, content: c2 }
                &&& {
                    let deleted = delete_outcome(
                        updated->Ok_0,
                        DeleteJournalEntry { owner, caller: signer },
                        title,
                        Some(a),
                    );
                    &&& deleted is Ok
                    &&& !deleted->Ok_0.contains_key(a)
                    &&& deleted->Ok_0 == entries
                    &&& {
                        let again = create_outcome(
                            deleted->Ok_0,
                            CreateJournalEntry { owner: signer },
                            title,
                            c3,
                            Some(a),
                        );
                        &&& again is Ok
                        &&& again->Ok_0[a] == EntryView { owner: owner@, title, content: c3 }
                    }
                }
            }
        }),
{
    let m1 = entries.insert(a, EntryView { owner: owner@, title, content: c1 });
    let m2 = m1.insert(a, EntryView { owner: owner@, title, content: c2 });
    assert(m2.remove(a) =~= entries);
}

} // verus!
