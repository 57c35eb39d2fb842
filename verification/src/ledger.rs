//! The wallet ledger: an append-only log of money movements and, per wallet,
//! a cached balance that always equals the sum of that wallet's entries.

use vstd::prelude::*;
use crate::error::{AppError, ErrorKind, outcome};

verus! {

/// Why money moved.
#[derive(Clone, Copy, Debug, PartialEq, Eq, Structural)]
pub enum EntryKind {
    Initial,
    EntryFee,
    Payout,
    Adjustment,
}

impl EntryKind {
    /// The name under which the kind is stored and sent.
    pub open spec fn spec_name(self) -> Seq<char> {
        match self {
            EntryKind::Initial => "initial"@,
            EntryKind::EntryFee => "entry_fee"@,
            EntryKind::Payout => "payout"@,
            EntryKind::Adjustment => "adjustment"@,
        }
    }

    /// The name under which the kind is stored and sent.
    pub fn name(self) -> (n: String)
        ensures
            n@ == self.spec_name(),
    {
        match self {
            EntryKind::Initial => "initial".to_owned(),
            EntryKind::EntryFee => "entry_fee".to_owned(),
            EntryKind::Payout => "payout".to_owned(),
            EntryKind::Adjustment => "adjustment".to_owned(),
        }
    }

    /// The kind that a name stands for.
    pub fn from_name(name: &String) -> (k: Option<EntryKind>)
        ensures
            match k {
                Some(kind) => kind.spec_name() == name@,
                None => forall|kind: EntryKind| kind.spec_name() != name@,
            },
    {
        if *name == "initial".to_owned() {
            Some(EntryKind::Initial)
        } else if *name == "entry_fee".to_owned() {
            Some(EntryKind::EntryFee)
        } else if *name == "payout".to_owned() {
            Some(EntryKind::Payout)
        } else if *name == "adjustment".to_owned() {
            Some(EntryKind::Adjustment)
        } else {
            None
        }
    }
}

/// One immutable record of money moving into (positive amount) or out of
/// (negative amount) a wallet. Amounts are in hundredths of a coin.
#[derive(Clone, Copy, Debug, PartialEq, Eq)]
pub struct LedgerEntry {
    pub wallet: u128,
    pub amount: i64,
    pub kind: EntryKind,
    pub reference: Option<u128>,
    pub timestamp: i64,
}

/// What opening an account grants: 1000.00 coins.
pub const INITIAL_BALANCE: i64 = 100_000;

/// Text sent when a wallet cannot pay.
pub open spec fn text_insufficient() -> Seq<char> {
    "Insufficient balance"@
}

/// The balance after paying in `amount`, or why it cannot be paid in.
pub open spec fn spec_credit(balance: i64, amount: i64) -> Result<i64, ErrorKind> {
    if amount < 0 {
        Err(ErrorKind::Validation)
    } else if balance + amount > i64::MAX {
        Err(ErrorKind::Internal)
    } else {
        Ok((balance + amount) as i64)
    }
}

/// The balance after paying out `amount`, or why it cannot be paid out.
pub open spec fn spec_debit(balance: i64, amount: i64) -> Result<i64, ErrorKind> {
    if amount < 0 {
        Err(ErrorKind::Validation)
    } else if balance < amount {
        Err(ErrorKind::PaymentRequired)
    } else {
        Ok((balance - amount) as i64)
    }
}

/// Decides a credit on a balance, without touching any store.
pub fn credited(balance: i64, amount: i64) -> (res: Result<i64, AppError>)
    ensures
        outcome(res) == spec_credit(balance, amount),
{
    if amount < 0 {
        return Err(AppError::Validation("Amount must not be negative".to_owned()));
    }
    match balance.checked_add(amount) {
        Some(b) => Ok(b),
        None => Err(AppError::Internal),
    }
}

/// Decides a debit on a balance, without touching any store. The check and
/// the new balance come from one call, so nothing can separate them.
pub fn debited(balance: i64, amount: i64) -> (res: Result<i64, AppError>)
    ensures
        outcome(res) == spec_debit(balance, amount),
        res matches Err(e) ==> (e.spec_kind() == ErrorKind::PaymentRequired
            ==> e.spec_message() == text_insufficient()),
{
    if amount < 0 {
        return Err(AppError::Validation("Amount must not be negative".to_owned()));
    }
    if balance < amount {
        return Err(AppError::PaymentRequired("Insufficient balance".to_owned()));
    }
    Ok(balance - amount)
}

/// The sum of the entries of `owner` in a log.
pub open spec fn ledger_sum(entries: Seq<LedgerEntry>, owner: u128) -> int
    decreases entries.len(),
{
    if entries.len() == 0 {
        0
    } else {
        ledger_sum(entries.drop_last(), owner) + if entries.last().wallet == owner {
            entries.last().amount as int
        } else {
            0
        }
    }
}

/// The entry fees that a log shows as collected for `contest`: what its
/// entries of kind `EntryFee` with that reference took out of wallets.
pub open spec fn fees_collected(entries: Seq<LedgerEntry>, contest: u128) -> int
    decreases entries.len(),
{
    if entries.len() == 0 {
        0
    } else {
        fees_collected(entries.drop_last(), contest) + if entries.last().kind
            == EntryKind::EntryFee && entries.last().reference == Some(contest) {
            -(entries.last().amount as int)
        } else {
            0
        }
    }
}

/// A wallet: its owner and the cached balance.
#[derive(Clone, Copy, Debug, PartialEq, Eq)]
pub struct Wallet {
    pub owner: u128,
    pub balance: i64,
}

/// The mathematical content of a ledger.
pub struct LedgerView {
    /// The balance of every wallet, by owner.
    pub balances: Map<u128, i64>,
    /// The log, oldest entry first.
    pub entries: Seq<LedgerEntry>,
}

impl LedgerView {
    /// Whether `owner` has a wallet.
    pub open spec fn has_wallet(self, owner: u128) -> bool {
        self.balances.dom().contains(owner)
    }

    /// The ledger after `e` is appended and its amount added to the balance
    /// of its wallet.
    pub open spec fn post(self, e: LedgerEntry) -> LedgerView {
        LedgerView {
            balances: self.balances.insert(e.wallet, (self.balances[e.wallet] + e.amount) as i64),
            entries: self.entries.push(e),
        }
    }

    /// The ledger after a wallet is opened for `owner` with a first entry.
    pub open spec fn open(self, owner: u128, initial: i64, now: i64) -> LedgerView {
        LedgerView {
            balances: self.balances.insert(owner, initial),
            entries: self.entries.push(
                LedgerEntry {
                    wallet: owner,
                    amount: initial,
                    kind: EntryKind::Initial,
                    reference: None,
                    timestamp: now,
                },
            ),
        }
    }

    /// Whether opening a wallet succeeds, and why not.
    pub open spec fn open_outcome(self, owner: u128, initial: i64) -> Result<(), ErrorKind> {
        if initial < 0 {
            Err(ErrorKind::Validation)
        } else if self.has_wallet(owner) {
            Err(ErrorKind::Conflict)
        } else {
            Ok(())
        }
    }

    /// Whether a credit succeeds, and why not.
    pub open spec fn credit_outcome(self, owner: u128, amount: i64) -> Result<(), ErrorKind> {
        if amount < 0 {
            Err(ErrorKind::Validation)
        } else if !self.has_wallet(owner) {
            Err(ErrorKind::NotFound)
        } else if self.balances[owner] + amount > i64::MAX {
            Err(ErrorKind::Internal)
        } else {
            Ok(())
        }
    }

    /// Whether a debit succeeds, and why not.
    pub open spec fn debit_outcome(self, owner: u128, amount: i64) -> Result<(), ErrorKind> {
        if amount < 0 {
            Err(ErrorKind::Validation)
        } else if !self.has_wallet(owner) {
            Err(ErrorKind::NotFound)
        } else if self.balances[owner] < amount {
            Err(ErrorKind::PaymentRequired)
        } else {
            Ok(())
        }
    }
}

/// The entries of `owner` in a log, newest first, at most `limit` of them.
pub open spec fn newest_first(entries: Seq<LedgerEntry>, owner: u128, limit: nat) -> Seq<
    LedgerEntry,
>
    decreases entries.len(),
{
    if entries.len() == 0 || limit == 0 {
        Seq::empty()
    } else if entries.last().wallet == owner {
        seq![entries.last()] + newest_first(entries.drop_last(), owner, (limit - 1) as nat)
    } else {
        newest_first(entries.drop_last(), owner, limit)
    }
}

/// Appending an entry adds its amount to the sum of its wallet only.
pub proof fn lemma_sum_push(entries: Seq<LedgerEntry>, e: LedgerEntry, owner: u128)
    ensures
        ledger_sum(entries.push(e), owner) == ledger_sum(entries, owner) + if e.wallet == owner {
            e.amount as int
        } else {
            0
        },
{
    assert(entries.push(e).drop_last() =~= entries);
}

/// All wallets and the log of every movement between them.
#[derive(Debug)]
pub struct WalletLedger {
    wallets: Vec<Wallet>,
    entries: Vec<LedgerEntry>,
}

/// Whether one of the wallets belongs to `owner`.
spec fn known(ws: Seq<Wallet>, owner: u128) -> bool {
    exists|i: int| 0 <= i < ws.len() && #[trigger] ws[i].owner == owner
}

/// The position of the wallet of `owner`.
spec fn position(ws: Seq<Wallet>, owner: u128) -> int {
    choose|i: int| 0 <= i < ws.len() && #[trigger] ws[i].owner == owner
}

impl View for WalletLedger {
    type V = LedgerView;

    closed spec fn view(&self) -> LedgerView {
        LedgerView {
            balances: Map::new(
                |o: u128| known(self.wallets@, o),
                |o: u128| self.wallets@[position(self.wallets@, o)].balance,
            ),
            entries: self.entries@,
        }
    }
}

impl WalletLedger {
    /// The invariant: owners are distinct, every entry belongs to a wallet,
    /// and every balance is non-negative and equals the sum of its entries.
    pub closed spec fn wf(&self) -> bool {
        &&& forall|i: int, j: int|
            0 <= i < j < self.wallets@.len() ==> self.wallets@[i].owner != self.wallets@[j].owner
        &&& forall|k: int|
            0 <= k < self.entries@.len() ==> known(
                self.wallets@,
                #[trigger] self.entries@[k].wallet,
            )
        &&& forall|i: int|
            0 <= i < self.wallets@.len() ==> {
                &&& (#[trigger] self.wallets@[i]).balance >= 0
                &&& self.wallets@[i].balance == ledger_sum(self.entries@, self.wallets@[i].owner)
            }
    }

    /// In a well-formed ledger no balance is negative, and each equals the
    /// sum of the entries of its wallet.
    pub proof fn lemma_balance_is_sum(&self, owner: u128)
        requires
            self.wf(),
            self@.balances.dom().contains(owner),
        ensures
            self@.balances[owner] >= 0,
            self@.balances[owner] == ledger_sum(self@.entries, owner),
    {
    }

    /// A ledger without wallets.
    pub fn new() -> (l: WalletLedger)
        ensures
            l.wf(),
            l@.balances == Map::<u128, i64>::empty(),
            l@.entries == Seq::<LedgerEntry>::empty(),
    {
        let l = WalletLedger { wallets: Vec::new(), entries: Vec::new() };
        l
    }

    /// The position of the wallet of `owner`.
    fn find(&self, owner: u128) -> (r: Option<usize>)
        requires
            self.wf(),
        ensures
            match r {
                Some(i) => i < self.wallets@.len() && self.wallets@[i as int].owner == owner
                    && known(self.wallets@, owner) && position(self.wallets@, owner) == i,
                None => !known(self.wallets@, owner),
            },
    {
        let mut i: usize = 0;
        while i < self.wallets.len()
            invariant
                self.wf(),
                i <= self.wallets@.len(),
                forall|j: int| 0 <= j < i ==> self.wallets@[j].owner != owner,
            decreases self.wallets@.len() - i,
        {
            if self.wallets[i].owner == owner {
                return Some(i);
            }
            i += 1;
        }
        None
    }

    /// The balance of `owner`'s wallet, if there is one.
    pub fn balance(&self, owner: u128) -> (b: Option<i64>)
        requires
            self.wf(),
        ensures
            match b {
                Some(v) => self@.balances.dom().contains(owner) && self@.balances[owner] == v,
                None => !self@.balances.dom().contains(owner),
            },
    {
        match self.find(owner) {
            Some(i) => Some(self.wallets[i].balance),
            None => None,
        }
    }

    /// Appends `e` and moves the balance of wallet `i` by its amount.
    fn record(&mut self, i: usize, e: LedgerEntry)
        requires
            old(self).wf(),
            i < old(self).wallets@.len(),
            old(self).wallets@[i as int].owner == e.wallet,
            0 <= old(self).wallets@[i as int].balance + e.amount <= i64::MAX,
        ensures
            final(self).wf(),
            final(self)@ =~= old(self)@.post(e),
    {
        let w = self.wallets[i];
        let ghost before = *self;
        self.wallets.set(i, Wallet { owner: w.owner, balance: w.balance + e.amount });
        self.entries.push(e);
        proof {
            let ws0 = before.wallets@;
            let ws1 = self.wallets@;
            assert forall|o: u128| known(ws1, o) == known(ws0, o) by {
                if known(ws0, o) {
                    let p = position(ws0, o);
                    assert(ws1[p].owner == o);
                }
            }
            assert forall|j: int| 0 <= j < ws1.len() implies (#[trigger] ws1[j]).balance >= 0
                && ws1[j].balance == ledger_sum(self.entries@, ws1[j].owner) by {
                lemma_sum_push(before.entries@, e, ws1[j].owner);
            }
            assert forall|o: u128| known(ws1, o) implies ws1[position(ws1, o)].balance == (if o
                == e.wallet {
                (ws0[position(ws0, o)].balance + e.amount) as i64
            } else {
                ws0[position(ws0, o)].balance
            }) by {}
            assert(self@.balances =~= before@.post(e).balances);
        }
    }

    /// Opens a wallet for `owner` and records the grant as its first entry.
    /// Refused with `Validation` for a negative grant, with `Conflict` where
    /// the owner already has a wallet; a refusal changes nothing.
    pub fn open_wallet(&mut self, owner: u128, initial: i64, now: i64) -> (res: Result<
        (),
        AppError,
    >)
        requires
            old(self).wf(),
        ensures
            final(self).wf(),
            outcome(res) == old(self)@.open_outcome(owner, initial),
            res is Ok ==> final(self)@ =~= old(self)@.open(owner, initial, now),
            res is Err ==> *final(self) == *old(self),
    {
        if initial < 0 {
            return Err(AppError::Validation("Amount must not be negative".to_owned()));
        }
        if self.find(owner).is_some() {
            return Err(AppError::Conflict("Wallet already exists".to_owned()));
        }
        let ghost before = *self;
        let e = LedgerEntry {
            wallet: owner,
            amount: initial,
            kind: EntryKind::Initial,
            reference: None,
            timestamp: now,
        };
        self.wallets.push(Wallet { owner, balance: initial });
        self.entries.push(e);
        proof {
            let ws0 = before.wallets@;
            let ws1 = self.wallets@;
            let n = ws0.len() as int;
            assert(ws1[n].owner == owner);
            assert forall|o: u128| known(ws1, o) == (known(ws0, o) || o == owner) by {
                if known(ws0, o) {
                    let p = position(ws0, o);
                    assert(ws1[p].owner == o);
                }
            }
            lemma_sum_absent(before.entries@, owner);
            assert forall|j: int| 0 <= j < ws1.len() implies (#[trigger] ws1[j]).balance >= 0
                && ws1[j].balance == ledger_sum(self.entries@, ws1[j].owner) by {
                lemma_sum_push(before.entries@, e, ws1[j].owner);
            }
            assert forall|o: u128| known(ws1, o) implies ws1[position(ws1, o)].balance == (if o
                == owner {
                initial
            } else {
                ws0[position(ws0, o)].balance
            }) by {}
            assert(self@.balances =~= before@.open(owner, initial, now).balances);
        }
        Ok(())
    }

    /// Pays `amount` into `owner`'s wallet: one entry and the new balance,
    /// together. A refusal changes nothing.
    pub fn credit(
        &mut self,
        owner: u128,
        amount: i64,
        kind: EntryKind,
        reference: Option<u128>,
        now: i64,
    ) -> (res: Result<(), AppError>)
        requires
            old(self).wf(),
        ensures
            final(self).wf(),
            outcome(res) == old(self)@.credit_outcome(owner, amount),
            res is Ok ==> final(self)@ =~= old(self)@.post(
                LedgerEntry { wallet: owner, amount, kind, reference, timestamp: now },
            ),
            res is Err ==> *final(self) == *old(self),
    {
        if amount < 0 {
            return Err(AppError::Validation("Amount must not be negative".to_owned()));
        }
        let i = match self.find(owner) {
            Some(i) => i,
            None => { return Err(AppError::NotFound); },
        };
        match credited(self.wallets[i].balance, amount) {
            Ok(_) => {},
            Err(e) => { return Err(e); },
        }
        self.record(i, LedgerEntry { wallet: owner, amount, kind, reference, timestamp: now });
        Ok(())
    }

    /// Takes `amount` out of `owner`'s wallet: one entry with the negated
    /// amount and the new balance, together. Refused with `PaymentRequired`
    /// where the balance is below `amount`; a refusal changes nothing.
    pub fn debit(
        &mut self,
        owner: u128,
        amount: i64,
        kind: EntryKind,
        reference: Option<u128>,
        now: i64,
    ) -> (res: Result<(), AppError>)
        requires
            old(self).wf(),
        ensures
            final(self).wf(),
            outcome(res) == old(self)@.debit_outcome(owner, amount),
            res is Ok ==> final(self)@ =~= old(self)@.post(
                LedgerEntry {
                    wallet: owner,
                    amount: (-amount) as i64,
                    kind,
                    reference,
                    timestamp: now,
                },
            ),
            res is Err ==> *final(self) == *old(self),
            res matches Err(e) ==> (e.spec_kind() == ErrorKind::PaymentRequired
                ==> e.spec_message() == text_insufficient()),
    {
        if amount < 0 {
            return Err(AppError::Validation("Amount must not be negative".to_owned()));
        }
        let i = match self.find(owner) {
            Some(i) => i,
            None => { return Err(AppError::NotFound); },
        };
        match debited(self.wallets[i].balance, amount) {
            Ok(_) => {},
            Err(e) => { return Err(e); },
        }
        self.record(
            i,
            LedgerEntry { wallet: owner, amount: -amount, kind, reference, timestamp: now },
        );
        Ok(())
    }

    /// The entry fees collected for `contest`, summed over the log.
    pub fn collected(&self, contest: u128) -> (total: i128)
        ensures
            total == fees_collected(self@.entries, contest),
    {
        let mut total: i128 = 0;
        let mut i: usize = 0;
        let n = self.entries.len();
        while i < n
            invariant
                n == self.entries@.len(),
                i <= n,
                total == fees_collected(self.entries@.take(i as int), contest),
                -(i * 0x8000_0000_0000_0000) <= total <= i * 0x8000_0000_0000_0000,
            decreases n - i,
        {
            proof {
                assert(self.entries@.take(i + 1).drop_last() =~= self.entries@.take(i as int));
            }
            let e = self.entries[i];
            let counts = match (e.kind, e.reference) {
                (EntryKind::EntryFee, Some(r)) => r == contest,
                _ => false,
            };
            if counts {
                total = total - e.amount as i128;
            }
            i += 1;
        }
        proof {
            assert(self.entries@.take(n as int) =~= self.entries@);
        }
        total
    }

    /// A copy of the ledger, on which a unit of several movements can be
    /// tried before it takes the place of the ledger.
    pub fn snapshot(&self) -> (c: WalletLedger)
        ensures
            c@ == self@,
            self.wf() ==> c.wf(),
    {
        let mut wallets: Vec<Wallet> = Vec::new();
        let mut i: usize = 0;
        while i < self.wallets.len()
            invariant
                i <= self.wallets@.len(),
                wallets@ =~= self.wallets@.take(i as int),
            decreases self.wallets@.len() - i,
        {
            wallets.push(self.wallets[i]);
            i += 1;
        }
        let mut entries: Vec<LedgerEntry> = Vec::new();
        let mut k: usize = 0;
        while k < self.entries.len()
            invariant
                k <= self.entries@.len(),
                entries@ =~= self.entries@.take(k as int),
            decreases self.entries@.len() - k,
        {
            entries.push(self.entries[k]);
            k += 1;
        }
        proof {
            assert(wallets@ =~= self.wallets@);
            assert(entries@ =~= self.entries@);
        }
        let c = WalletLedger { wallets, entries };
        c
    }

    /// The entries of `owner`, newest first, at most `limit` of them.
    pub fn transactions(&self, owner: u128, limit: usize) -> (out: Vec<LedgerEntry>)
        ensures
            out@ == newest_first(self@.entries, owner, limit as nat),
    {
        let mut out: Vec<LedgerEntry> = Vec::new();
        let mut i: usize = self.entries.len();
        proof {
            assert(self.entries@.take(i as int) =~= self.entries@);
            assert(out@ + newest_first(self.entries@, owner, limit as nat) =~= newest_first(
                self.entries@,
                owner,
                limit as nat,
            ));
        }
        while i > 0 && out.len() < limit
            invariant
                i <= self.entries@.len(),
                out@.len() <= limit,
                out@ + newest_first(
                    self.entries@.take(i as int),
                    owner,
                    (limit - out@.len()) as nat,
                ) == newest_first(self.entries@, owner, limit as nat),
            decreases i,
        {
            let ghost prefix = self.entries@.take(i as int);
            i -= 1;
            let e = self.entries[i];
            proof {
                assert(prefix.drop_last() =~= self.entries@.take(i as int));
            }
            if e.wallet == owner {
                out.push(e);
                proof {
                    let rest = newest_first(
                        self.entries@.take(i as int),
                        owner,
                        (limit - out@.len()) as nat,
                    );
                }
            }
        }
        proof {
            let rest = newest_first(
                self.entries@.take(i as int),
                owner,
                (limit - out@.len()) as nat,
            );
        }
        out
    }
}

/// The sum of a wallet that no entry names is zero.
proof fn lemma_sum_absent(entries: Seq<LedgerEntry>, owner: u128)
    requires
        forall|k: int| 0 <= k < entries.len() ==> (#[trigger] entries[k]).wallet != owner,
    ensures
        ledger_sum(entries, owner) == 0,
    decreases entries.len(),
{
    if entries.len() > 0 {
        lemma_sum_absent(entries.drop_last(), owner);
    }
}

} // verus!
