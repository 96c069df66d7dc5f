//! The journal: entry accounts keyed by their derived addresses, and the
//! create, update and delete operations on them.
use vstd::prelude::*;
use crate::address::{derive_address, entry_address, key_view};
use crate::layout::{
    account_image, encode_fields, fields_end, le32, store_image, utf8, ACCOUNT_SPACE, MAX_CONTENT_LEN,
    MAX_TITLE_LEN,
};

verus! {

/// A journal entry as stored.
pub struct JournalEntry {
    pub owner: [u8; 32],
    pub title: String,
    pub content: String,
}

/// The mathematical value of a journal entry.
pub struct EntryView {
    pub owner: Seq<u8>,
    pub title: Seq<char>,
    pub content: Seq<char>,
}

impl View for JournalEntry {
    type V = EntryView;

    open spec fn view(&self) -> EntryView {
        EntryView { owner: self.owner@, title: self.title@, content: self.content@ }
    }
}

/// Whether an entry's fields are within their caps.
pub open spec fn entry_fits(e: EntryView) -> bool {
    &&& utf8(e.title).len() <= MAX_TITLE_LEN
    &&& utf8(e.content).len() <= MAX_CONTENT_LEN
}

/// The bytes of the account that holds an entry.
pub open spec fn entry_image(e: EntryView) -> Seq<u8> {
    account_image(e.owner, utf8(e.title), utf8(e.content))
}

/// A caller identity, and whether it has signed the request.
#[derive(Clone, Copy, Debug, PartialEq, Eq)]
pub struct Signer {
    pub key: [u8; 32],
    pub is_signer: bool,
}

/// The accounts of a create request: the owner, who pays for the account.
#[derive(Clone, Copy, Debug, PartialEq, Eq)]
pub struct CreateJournalEntry {
    pub owner: Signer,
}

/// The accounts of an update request: the owner whose entry is targeted,
/// and the caller.
#[derive(Clone, Copy, Debug, PartialEq, Eq)]
pub struct UpdateJournalEntry {
    pub owner: [u8; 32],
    pub caller: Signer,
}

/// The accounts of a delete request: the owner whose entry is targeted,
/// and the caller, who gets the account's deposit back.
#[derive(Clone, Copy, Debug, PartialEq, Eq)]
pub struct DeleteJournalEntry {
    pub owner: [u8; 32],
    pub caller: Signer,
}

/// Why an operation failed. A failed operation changes nothing.
#[derive(Clone, Copy, Debug, PartialEq, Eq, Structural)]
pub enum ErrorCode {
    /// The caller has not signed the request.
    Unauthenticated,
    /// The caller is not the owner of the entry.
    Unauthorized,
    /// No entry is stored at the derived address.
    NotFound,
    /// An entry is already stored at the derived address.
    AddressInUse,
    /// The title or the content is longer than its cap.
    FieldTooLong,
    /// No bump seed gives an address for the owner and the title.
    NoAddress,
}

/// An allocated entry account.
pub struct EntryAccount {
    pub address: [u8; 32],
    pub entry: JournalEntry,
    pub data: Vec<u8>,
}

/// The entry accounts of one program.
pub struct Ledger {
    program_id: [u8; 32],
    accounts: Vec<EntryAccount>,
}

impl View for Ledger {
    type V = Map<Seq<u8>, EntryView>;

    /// The entries by address.
    closed spec fn view(&self) -> Map<Seq<u8>, EntryView> {
        Map::new(
            |a: Seq<u8>| self.holds(a),
            |a: Seq<u8>| self.accounts@[self.index_of(a)].entry@,
        )
    }
}

impl Ledger {
    /// The program whose accounts these are.
    pub closed spec fn program(&self) -> Seq<u8> {
        self.program_id@
    }

    /// The account bytes by address.
    pub closed spec fn image(&self) -> Map<Seq<u8>, Seq<u8>> {
        Map::new(
            |a: Seq<u8>| self.holds(a),
            |a: Seq<u8>| self.accounts@[self.index_of(a)].data@,
        )
    }

    spec fn holds(&self, a: Seq<u8>) -> bool {
        exists|i: int| 0 <= i < self.accounts@.len() && self.accounts@[i].address@ == a
    }

    spec fn index_of(&self, a: Seq<u8>) -> int {
        choose|i: int| 0 <= i < self.accounts@.len() && self.accounts@[i].address@ == a
    }

    /// Addresses are distinct; each account holds the image of its entry,
    /// within the caps, at the address derived from its owner and title.
    pub closed spec fn wf(&self) -> bool {
        &&& forall|i: int, j: int|
            0 <= i < self.accounts@.len() && 0 <= j < self.accounts@.len() && i != j
                ==> self.accounts@[i].address@ != self.accounts@[j].address@
        &&& forall|i: int| 0 <= i < self.accounts@.len() ==> {
            let acc = #[trigger] self.accounts@[i];
            &&& entry_fits(acc.entry@)
            &&& acc.data@ == entry_image(acc.entry@)
            &&& entry_address(self.program_id@, acc.entry.owner@, acc.entry.title@) == Some(acc.address@)
        }
    }

    proof fn lemma_at(&self, i: int)
        requires
            self.wf(),
            0 <= i < self.accounts@.len(),
        ensures
            self@.contains_key(self.accounts@[i].address@),
            self@[self.accounts@[i].address@] == self.accounts@[i].entry@,
            self.image()[self.accounts@[i].address@] == self.accounts@[i].data@,
    {
        let a = self.accounts@[i].address@;
        assert(self.holds(a));
        let j = self.index_of(a);
        assert(j == i);
    }

    /// An empty ledger of the given program.
    pub fn new(program_id: [u8; 32]) -> (r: Ledger)
        ensures
            r.wf(),
            r@ == Map::<Seq<u8>, EntryView>::empty(),
            r.program() == program_id@,
    {
        let r = Ledger { program_id, accounts: Vec::new() };
        assert(r@ =~= Map::<Seq<u8>, EntryView>::empty());
        r
    }

    /// The program whose accounts these are.
    pub fn program_id(&self) -> (r: [u8; 32])
        ensures
            r@ == self.program(),
    {
        self.program_id
    }

    /// The number of stored entries.
    pub fn len(&self) -> (r: usize)
        requires
            self.wf(),
        ensures
            r == self@.len(),
    {
        proof { self.lemma_len(); }
        self.accounts.len()
    }

    proof fn lemma_len(&self)
        requires
            self.wf(),
        ensures
            self@.dom().finite(),
            self@.len() == self.accounts@.len(),
        decreases self.accounts@.len(),
    {
        let addrs = self.accounts@.map_values(|acc: EntryAccount| acc.address@);
        assert forall|i: int, j: int| 0 <= i < addrs.len() && 0 <= j < addrs.len() && i != j
            implies addrs[i] != addrs[j] by {}
        assert(addrs.no_duplicates());
        addrs.unique_seq_to_set();
        assert forall|a: Seq<u8>| self@.dom().contains(a) <==> addrs.to_set().contains(a) by {
            if self@.dom().contains(a) {
                let i = self.index_of(a);
                assert(addrs[i] == a);
            }
            if addrs.to_set().contains(a) {
                let i = choose|i: int| 0 <= i < addrs.len() && addrs[i] == a;
                assert(self.accounts@[i].address@ == a);
            }
        }
        assert(self@.dom() =~= addrs.to_set());
    }
}

impl Ledger {
    /// Every stored entry sits at the address derived from its owner and its
    /// title under the ledger's program: the address depends on nothing else,
    /// and in particular not on the content.
    pub proof fn lemma_entry_at_its_address(&self, a: Seq<u8>)
        requires
            self.wf(),
            self@.contains_key(a),
        ensures
            entry_address(self.program(), self@[a].owner, self@[a].title) == Some(a),
            self@[a].owner.len() == 32,
    {
        let i = self.index_of(a);
        self.lemma_at(i);
    }

    /// Every account is exactly `ACCOUNT_SPACE` bytes and holds the image of
    /// its entry alone: the bytes of the current fields, then zeros. No byte
    /// of an earlier, longer title or content can be read from it.
    pub proof fn lemma_account_image(&self, a: Seq<u8>)
        requires
            self.wf(),
            self@.contains_key(a),
        ensures
            self.image().contains_key(a),
            self.image()[a] == entry_image(self@[a]),
            self.image()[a].len() == ACCOUNT_SPACE,
            forall|k: int|
                fields_end(utf8(self@[a].title), utf8(self@[a].content)) <= k < ACCOUNT_SPACE
                    ==> self.image()[a][k] == 0u8,
    {
        let i = self.index_of(a);
        self.lemma_at(i);
        let e = self@[a];
        let f = encode_fields(e.owner, utf8(e.title), utf8(e.content));
        assert(le32(utf8(e.title).len()).len() == 4);
        assert(le32(utf8(e.content).len()).len() == 4);
        assert(f.len() == fields_end(utf8(e.title), utf8(e.content)));
        assert(self.image()[a] == account_image(e.owner, utf8(e.title), utf8(e.content)));
    }
}

/// Whether two keys are equal.
fn same_key(a: &[u8; 32], b: &[u8; 32]) -> (r: bool)
    ensures
        r == (a@ == b@),
{
    let mut i: usize = 0;
    while i < 32
        invariant
            i <= 32,
            forall|k: int| 0 <= k < i ==> a@[k] == b@[k],
        decreases 32 - i,
    {
        if a[i] != b[i] {
            assert(a@[i as int] != b@[i as int]);
            return false;
        }
        i = i + 1;
    }
    assert(a@ =~= b@);
    true
}

impl Ledger {
    /// Where the account at `address` stands, if there is one.
    fn find(&self, address: &[u8; 32]) -> (r: Option<usize>)
        requires
            self.wf(),
        ensures
            match r {
                Some(i) => i < self.accounts@.len() && self.accounts@[i as int].address@ == address@,
                None => !self@.contains_key(address@),
            },
    {
        let mut i: usize = 0;
        while i < self.accounts.len()
            invariant
                i <= self.accounts@.len(),
                forall|k: int| 0 <= k < i ==> self.accounts@[k].address@ != address@,
            decreases self.accounts@.len() - i,
        {
            if same_key(&self.accounts[i].address, address) {
                return Some(i);
            }
            i = i + 1;
        }
        None
    }

    /// The entry at `address`, if there is one.
    pub fn entry(&self, address: &[u8; 32]) -> (r: Option<&JournalEntry>)
        requires
            self.wf(),
        ensures
            match r {
                Some(e) => self@.contains_key(address@) && e@ == self@[address@],
                None => !self@.contains_key(address@),
            },
    {
        match self.find(address) {
            Some(i) => {
                proof { self.lemma_at(i as int); }
                Some(&self.accounts[i].entry)
            },
            None => None,
        }
    }

    /// The bytes of the account at `address`, if there is one.
    pub fn account_data(&self, address: &[u8; 32]) -> (r: Option<&Vec<u8>>)
        requires
            self.wf(),
        ensures
            match r {
                Some(d) => self@.contains_key(address@) && d@ == self.image()[address@],
                None => !self@.contains_key(address@),
            },
    {
        match self.find(address) {
            Some(i) => {
                proof { self.lemma_at(i as int); }
                Some(&self.accounts[i].data)
            },
            None => None,
        }
    }
}

impl Ledger {
    proof fn lemma_push(pre: Ledger, post: Ledger, acc: EntryAccount)
        requires
            pre.wf(),
            post.wf(),
            post.accounts@ == pre.accounts@.push(acc),
        ensures
            post@ == pre@.insert(acc.address@, acc.entry@),
    {
        let n = pre.accounts@.len() as int;
        post.lemma_at(n);
        assert forall|k: Seq<u8>| #[trigger] post@.contains_key(k) == pre@.insert(acc.address@, acc.entry@).contains_key(k) by {
            if post@.contains_key(k) && k != acc.address@ {
                let i = post.index_of(k);
                assert(i != n);
                assert(pre.accounts@[i] == post.accounts@[i]);
                assert(pre.holds(k));
            }
            if pre@.contains_key(k) {
                let i = pre.index_of(k);
                assert(pre.accounts@[i] == post.accounts@[i]);
                assert(post.holds(k));
            }
        }
        assert forall|k: Seq<u8>| #[trigger] post@.contains_key(k) && k != acc.address@ implies post@[k] == pre@[k] by {
            let i = pre.index_of(k);
            pre.lemma_at(i);
            assert(pre.accounts@[i] == post.accounts@[i]);
            post.lemma_at(i);
        }
        assert(post@ =~= pre@.insert(acc.address@, acc.entry@));
    }

    proof fn lemma_replace(pre: Ledger, post: Ledger, i: int, acc: EntryAccount)
        requires
            pre.wf(),
            post.wf(),
            0 <= i < pre.accounts@.len(),
            acc.address == pre.accounts@[i].address,
            post.accounts@ == pre.accounts@.update(i, acc),
        ensures
            post@ == pre@.insert(acc.address@, acc.entry@),
    {
        post.lemma_at(i);
        pre.lemma_at(i);
        assert forall|k: Seq<u8>| #[trigger] post@.contains_key(k) == pre@.contains_key(k) by {
            if post@.contains_key(k) {
                let j = post.index_of(k);
                if j != i {
                    assert(pre.accounts@[j] == post.accounts@[j]);
                }
                assert(pre.holds(k));
            }
            if pre@.contains_key(k) {
                let j = pre.index_of(k);
                if j != i {
                    assert(pre.accounts@[j] == post.accounts@[j]);
                }
                assert(post.holds(k));
            }
        }
        assert forall|k: Seq<u8>| #[trigger] post@.contains_key(k) && k != acc.address@ implies post@[k] == pre@[k] by {
            let j = pre.index_of(k);
            pre.lemma_at(j);
            assert(j != i);
            assert(pre.accounts@[j] == post.accounts@[j]);
            post.lemma_at(j);
        }
        assert(post@ =~= pre@.insert(acc.address@, acc.entry@));
    }

    proof fn lemma_remove(pre: Ledger, post: Ledger, i: int)
        requires
            pre.wf(),
            post.wf(),
            0 <= i < pre.accounts@.len(),
            post.accounts@ == pre.accounts@.remove(i),
        ensures
            post@ == pre@.remove(pre.accounts@[i].address@),
    {
        let a = pre.accounts@[i].address@;
        assert forall|k: Seq<u8>| #[trigger] post@.contains_key(k) == pre@.remove(a).contains_key(k) by {
            if post@.contains_key(k) {
                let j = post.index_of(k);
                let pj = if j < i { j } else { j + 1 };
                assert(pre.accounts@[pj] == post.accounts@[j]);
                assert(pre.holds(k));
                assert(pj != i);
            }
            if pre@.contains_key(k) && k != a {
                let j = pre.index_of(k);
                assert(j != i);
                let qj = if j < i { j } else { j - 1 };
                assert(pre.accounts@[j] == post.accounts@[qj]);
                assert(post.holds(k));
            }
        }
        assert forall|k: Seq<u8>| #[trigger] post@.contains_key(k) implies post@[k] == pre@[k] by {
            let j = post.index_of(k);
            post.lemma_at(j);
            let pj = if j < i { j } else { j + 1 };
            assert(pre.accounts@[pj] == post.accounts@[j]);
            pre.lemma_at(pj);
        }
        assert(post@ =~= pre@.remove(a));
    }
}

/// The entries after a create, or the error it fails with. A title over its
/// cap has no address to look at; otherwise an occupied address is reported
/// before an oversize content.
pub open spec fn create_outcome(
    entries: Map<Seq<u8>, EntryView>,
    ctx: CreateJournalEntry,
    title: Seq<char>,
    content: Seq<char>,
    address: Option<Seq<u8>>,
) -> Result<Map<Seq<u8>, EntryView>, ErrorCode> {
    if !ctx.owner.is_signer {
        Err(ErrorCode::Unauthenticated)
    } else if utf8(title).len() > MAX_TITLE_LEN {
        Err(ErrorCode::FieldTooLong)
    } else {
        match address {
            None => Err(ErrorCode::NoAddress),
            Some(a) => if entries.contains_key(a) {
                Err(ErrorCode::AddressInUse)
            } else if utf8(content).len() > MAX_CONTENT_LEN {
                Err(ErrorCode::FieldTooLong)
            } else {
                Ok(entries.insert(a, EntryView { owner: ctx.owner.key@, title, content }))
            },
        }
    }
}

/// The entries after an update, or the error it fails with. The entry is
/// found and its owner checked before the new content is looked at; a title
/// over its cap names no entry.
pub open spec fn update_outcome(
    entries: Map<Seq<u8>, EntryView>,
    ctx: UpdateJournalEntry,
    title: Seq<char>,
    content: Seq<char>,
    address: Option<Seq<u8>>,
) -> Result<Map<Seq<u8>, EntryView>, ErrorCode> {
    if !ctx.caller.is_signer {
        Err(ErrorCode::Unauthenticated)
    } else if utf8(title).len() > MAX_TITLE_LEN {
        Err(ErrorCode::NotFound)
    } else {
        match address {
            None => Err(ErrorCode::NoAddress),
            Some(a) => if !entries.contains_key(a) {
                Err(ErrorCode::NotFound)
            } else if entries[a].owner != ctx.caller.key@ {
                Err(ErrorCode::Unauthorized)
            } else if utf8(content).len() > MAX_CONTENT_LEN {
                Err(ErrorCode::FieldTooLong)
            } else {
                Ok(entries.insert(a, EntryView { owner: entries[a].owner, title: entries[a].title, content }))
            },
        }
    }
}

/// The entries after a delete, or the error it fails with. A title over its
/// cap names no entry.
pub open spec fn delete_outcome(
    entries: Map<Seq<u8>, EntryView>,
    ctx: DeleteJournalEntry,
    title: Seq<char>,
    address: Option<Seq<u8>>,
) -> Result<Map<Seq<u8>, EntryView>, ErrorCode> {
    if !ctx.caller.is_signer {
        Err(ErrorCode::Unauthenticated)
    } else if utf8(title).len() > MAX_TITLE_LEN {
        Err(ErrorCode::NotFound)
    } else {
        match address {
            None => Err(ErrorCode::NoAddress),
            Some(a) => if !entries.contains_key(a) {
                Err(ErrorCode::NotFound)
            } else if entries[a].owner != ctx.caller.key@ {
                Err(ErrorCode::Unauthorized)
            } else {
                Ok(entries.remove(a))
            },
        }
    }
}

/// Whether a call that returned `r` took `pre` to `post` as `outcome` says:
/// on success the entries are the outcome's, on failure nothing changed.
pub open spec fn applied(
    outcome: Result<Map<Seq<u8>, EntryView>, ErrorCode>,
    r: Result<(), ErrorCode>,
    pre: Ledger,
    post: Ledger,
) -> bool {
    &&& post.wf()
    &&& post.program() == pre.program()
    &&& match r {
        Ok(_) => outcome == Ok::<Map<Seq<u8>, EntryView>, ErrorCode>(post@),
        Err(e) => outcome == Err::<Map<Seq<u8>, EntryView>, ErrorCode>(e) && post == pre,
    }
}

/// The address of the entry that `owner` keeps under `title`, or `None`
/// where the title is over its cap and names no entry.
fn address_for(program_id: &[u8; 32], owner: &[u8; 32], title: &String) -> (r: Option<[u8; 32]>)
    ensures
        utf8(title@).len() <= MAX_TITLE_LEN ==> key_view(r) == entry_address(program_id@, owner@, title@),
{
    if title.as_str().as_bytes().len() <= MAX_TITLE_LEN {
        derive_address(program_id, owner, title.as_str())
    } else {
        None
    }
}

/// Creates the entry that `ctx.owner` keeps under `title`, at `address`,
/// the address derived from them.
pub fn create_entry_at(
    ledger: &mut Ledger,
    ctx: &CreateJournalEntry,
    title: String,
    content: String,
    address: Option<[u8; 32]>,
) -> (r: Result<(), ErrorCode>)
    requires
        old(ledger).wf(),
        utf8(title@).len() <= MAX_TITLE_LEN ==> key_view(address) == entry_address(
            old(ledger).program(),
            ctx.owner.key@,
            title@,
        ),
    ensures
        applied(create_outcome(old(ledger)@, *ctx, title@, content@, key_view(address)), r, *old(ledger), *final(ledger)),
{
    if !ctx.owner.is_signer {
        return Err(ErrorCode::Unauthenticated);
    }
    if title.as_str().as_bytes().len() > MAX_TITLE_LEN {
        return Err(ErrorCode::FieldTooLong);
    }
    let a = match address {
        None => return Err(ErrorCode::NoAddress),
        Some(a) => a,
    };
    match ledger.find(&a) {
        Some(i) => {
            proof { ledger.lemma_at(i as int); }
            return Err(ErrorCode::AddressInUse);
        },
        None => {},
    }
    if content.as_str().as_bytes().len() > MAX_CONTENT_LEN {
        return Err(ErrorCode::FieldTooLong);
    }
    let mut data: Vec<u8> = Vec::new();
    store_image(&mut data, &ctx.owner.key, title.as_str().as_bytes(), content.as_str().as_bytes());
    let acc = EntryAccount { address: a, entry: JournalEntry { owner: ctx.owner.key, title, content }, data };
    let ghost new_acc = acc;
    ledger.accounts.push(acc);
    proof {
        assert(ledger.accounts@[old(ledger).accounts@.len() as int] == new_acc);
        assert forall|i: int| 0 <= i < old(ledger).accounts@.len() implies ledger.accounts@[i].address@ != a@ by {
            if ledger.accounts@[i].address@ == a@ {
                assert(old(ledger).holds(a@));
            }
        }
        Ledger::lemma_push(*old(ledger), *ledger, new_acc);
    }
    Ok(())
}

/// Creates the entry that `ctx.owner` keeps under `title`.
pub fn create_journal_entry(
    ledger: &mut Ledger,
    ctx: &CreateJournalEntry,
    title: String,
    content: String,
) -> (r: Result<(), ErrorCode>)
    requires
        old(ledger).wf(),
    ensures
        applied(
            create_outcome(old(ledger)@, *ctx, title@, content@,
                entry_address(old(ledger).program(), ctx.owner.key@, title@)),
            r, *old(ledger), *final(ledger)),
{
    let address = address_for(&ledger.program_id, &ctx.owner.key, &title);
    create_entry_at(ledger, ctx, title, content, address)
}

/// Replaces the content of the entry that `ctx.owner` keeps under `title`,
/// at `address`, the address derived from them. The account is rewritten to
/// hold the image of the new entry: bytes past the new content are zero.
pub fn update_entry_at(
    ledger: &mut Ledger,
    ctx: &UpdateJournalEntry,
    title: String,
    content: String,
    address: Option<[u8; 32]>,
) -> (r: Result<(), ErrorCode>)
    requires
        old(ledger).wf(),
        utf8(title@).len() <= MAX_TITLE_LEN ==> key_view(address) == entry_address(
            old(ledger).program(),
            ctx.owner@,
            title@,
        ),
    ensures
        applied(update_outcome(old(ledger)@, *ctx, title@, content@, key_view(address)), r, *old(ledger), *final(ledger)),
{
    if !ctx.caller.is_signer {
        return Err(ErrorCode::Unauthenticated);
    }
    if title.as_str().as_bytes().len() > MAX_TITLE_LEN {
        return Err(ErrorCode::NotFound);
    }
    let a = match address {
        None => return Err(ErrorCode::NoAddress),
        Some(a) => a,
    };
    let i = match ledger.find(&a) {
        None => return Err(ErrorCode::NotFound),
        Some(i) => i,
    };
    proof { ledger.lemma_at(i as int); }
    if !same_key(&ledger.accounts[i].entry.owner, &ctx.caller.key) {
        return Err(ErrorCode::Unauthorized);
    }
    if content.as_str().as_bytes().len() > MAX_CONTENT_LEN {
        return Err(ErrorCode::FieldTooLong);
    }
    let mut acc = ledger.accounts.remove(i);
    acc.entry.content = content;
    store_image(&mut acc.data, &acc.entry.owner, acc.entry.title.as_str().as_bytes(), acc.entry.content.as_str().as_bytes());
    let ghost new_acc = acc;
    ledger.accounts.insert(i, acc);
    proof {
        assert(ledger.accounts@ =~= old(ledger).accounts@.update(i as int, new_acc));
        Ledger::lemma_replace(*old(ledger), *ledger, i as int, new_acc);
    }
    Ok(())
}

/// Replaces the content of the entry that `ctx.owner` keeps under `title`.
pub fn update_journal_entry(
    ledger: &mut Ledger,
    ctx: &UpdateJournalEntry,
    title: String,
    content: String,
) -> (r: Result<(), ErrorCode>)
    requires
        old(ledger).wf(),
    ensures
        applied(
            update_outcome(old(ledger)@, *ctx, title@, content@,
                entry_address(old(ledger).program(), ctx.owner@, title@)),
            r, *old(ledger), *final(ledger)),
{
    let address = address_for(&ledger.program_id, &ctx.owner, &title);
    update_entry_at(ledger, ctx, title, content, address)
}

/// Deletes the entry that `ctx.owner` keeps under `title`, at `address`, the
/// address derived from them; its account is closed.
pub fn delete_entry_at(
    ledger: &mut Ledger,
    ctx: &DeleteJournalEntry,
    title: String,
    address: Option<[u8; 32]>,
) -> (r: Result<(), ErrorCode>)
    requires
        old(ledger).wf(),
        utf8(title@).len() <= MAX_TITLE_LEN ==> key_view(address) == entry_address(
            old(ledger).program(),
            ctx.owner@,
            title@,
        ),
    ensures
        applied(delete_outcome(old(ledger)@, *ctx, title@, key_view(address)), r, *old(ledger), *final(ledger)),
{
    if !ctx.caller.is_signer {
        return Err(ErrorCode::Unauthenticated);
    }
    if title.as_str().as_bytes().len() > MAX_TITLE_LEN {
        return Err(ErrorCode::NotFound);
    }
    let a = match address {
        None => return Err(ErrorCode::NoAddress),
        Some(a) => a,
    };
    let i = match ledger.find(&a) {
        None => return Err(ErrorCode::NotFound),
        Some(i) => i,
    };
    proof { ledger.lemma_at(i as int); }
    if !same_key(&ledger.accounts[i].entry.owner, &ctx.caller.key) {
        return Err(ErrorCode::Unauthorized);
    }
    ledger.accounts.remove(i);
    proof {
        Ledger::lemma_remove(*old(ledger), *ledger, i as int);
    }
    Ok(())
}

/// Deletes the entry that `ctx.owner` keeps under `title`.
pub fn delete_journal_entry(
    ledger: &mut Ledger,
    ctx: &DeleteJournalEntry,
    title: String,
) -> (r: Result<(), ErrorCode>)
    requires
        old(ledger).wf(),
    ensures
        applied(
            delete_outcome(old(ledger)@, *ctx, title@, entry_address(old(ledger).program(), ctx.owner@, title@)),
            r, *old(ledger), *final(ledger)),
{
    let address = address_for(&ledger.program_id, &ctx.owner, &title);
    delete_entry_at(ledger, ctx, title, address)
}

impl Ledger {
    /// Admits an entry that already exists, as its owner's signed create
    /// would: at the address derived from its owner and title, with its
    /// fields within their caps, where no entry stands yet.
    pub fn load_entry(&mut self, entry: JournalEntry) -> (r: Result<(), ErrorCode>)
        requires
            old(self).wf(),
        ensures
            applied(
                create_outcome(old(self)@, CreateJournalEntry { owner: Signer { key: entry.owner, is_signer: true } },
                    entry.title@, entry.content@,
                    entry_address(old(self).program(), entry.owner@, entry.title@)),
                r, *old(self), *final(self)),
    {
        let ctx = CreateJournalEntry { owner: Signer { key: entry.owner, is_signer: true } };
        create_journal_entry(self, &ctx, entry.title, entry.content)
    }
}

} // verus!
