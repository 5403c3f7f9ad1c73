use std::collections::BTreeMap;
use vstd::prelude::*;
use vstd::string::StringExecFns;

use crate::amount::{four_place_text, Amount, MAX_UNITS};

verus! {

/// Identifies a client; the ledger is keyed and reported by it.
#[derive(Clone, Copy, Debug, PartialEq, Eq, PartialOrd, Ord, Hash, Structural)]
pub struct ClientId(pub u16);

/// The decimal digits of `n`, most significant first.
pub open spec fn digits_of(n: nat) -> Seq<char>
    decreases n,
{
    if n < 10 {
        seq![digit_char(n)]
    } else {
        digits_of(n / 10).push(digit_char(n % 10))
    }
}

pub open spec fn digit_char(d: nat) -> char {
    (('0' as u32) + d) as char
}

impl ClientId {
    /// The identifier in decimal.
    pub fn to_text(&self) -> (r: String)
        ensures
            r@ == digits_of(self.0 as nat),
    {
        let mut n: u16 = self.0;
        let mut rev: Vec<u16> = Vec::new();
        loop
            invariant_except_break
                digits_of(self.0 as nat) == digits_of(n as nat) + digit_seq(rev@.reverse()),
            invariant
                forall|j: int| 0 <= j < rev.len() ==> rev@[j] < 10,
            ensures
                digits_of(self.0 as nat) == digit_seq(rev@.reverse()),
                forall|j: int| 0 <= j < rev.len() ==> rev@[j] < 10,
            decreases n,
        {
            let d: u16 = n % 10;
            proof {
                lemma_digit_seq_push_front(rev@.reverse(), d);
                assert(rev@.push(d).reverse() =~= seq![d] + rev@.reverse());
            }
            rev.push(d);
            if n < 10 {
                break;
            }
            n = n / 10;
        }
        let mut out = String::new();
        let mut i: usize = rev.len();
        while i > 0
            invariant
                i <= rev.len(),
                forall|j: int| 0 <= j < rev.len() ==> rev@[j] < 10,
                out@ == digit_seq(rev@.reverse().take(rev.len() - i)),
            decreases i,
        {
            i = i - 1;
            let d = rev[i];
            out.append(digit_str(d));
            proof {
                let s = rev@.reverse().take(rev.len() - i);
                assert(s =~= rev@.reverse().take(rev.len() - i - 1).push(d));
                assert(s.drop_last() =~= rev@.reverse().take(rev.len() - i - 1));
            }
        }
        assert(rev@.reverse().take(rev.len() as int) =~= rev@.reverse());
        out
    }
}

/// The characters of a sequence of decimal digits.
pub open spec fn digit_seq(ds: Seq<u16>) -> Seq<char>
    decreases ds.len(),
{
    if ds.len() == 0 {
        Seq::empty()
    } else {
        digit_seq(ds.drop_last()).push(digit_char(ds.last() as nat))
    }
}

proof fn lemma_digit_seq_push_front(ds: Seq<u16>, d: u16)
    ensures
        digit_seq(seq![d] + ds) == seq![digit_char(d as nat)] + digit_seq(ds),
    decreases ds.len(),
{
    let e = Seq::<u16>::empty();
    assert(digit_seq(e) == Seq::<char>::empty());
    if ds.len() == 0 {
        assert(seq![d] + ds =~= seq![d]);
        assert(seq![d].drop_last() =~= e);
        assert(digit_seq(seq![d]) == digit_seq(e).push(digit_char(d as nat)));
        assert(seq![digit_char(d as nat)] + digit_seq(ds) =~= seq![digit_char(d as nat)]);
    } else {
        lemma_digit_seq_push_front(ds.drop_last(), d);
        assert((seq![d] + ds).drop_last() =~= seq![d] + ds.drop_last());
        assert((seq![d] + ds).last() == ds.last());
        assert(seq![digit_char(d as nat)] + digit_seq(ds) =~= (seq![digit_char(d as nat)]
            + digit_seq(ds.drop_last())).push(digit_char(ds.last() as nat)));
    }
}

fn digit_str(d: u16) -> (s: &'static str)
    requires
        d < 10,
    ensures
        s@ == seq![digit_char(d as nat)],
{
    proof {
        reveal_strlit("0");
        reveal_strlit("1");
        reveal_strlit("2");
        reveal_strlit("3");
        reveal_strlit("4");
        reveal_strlit("5");
        reveal_strlit("6");
        reveal_strlit("7");
        reveal_strlit("8");
        reveal_strlit("9");
    }
    if d == 0 { "0" } else if d == 1 { "1" } else if d == 2 { "2" } else if d == 3 { "3" }
    else if d == 4 { "4" } else if d == 5 { "5" } else if d == 6 { "6" } else if d == 7 { "7" }
    else if d == 8 { "8" } else { "9" }
}

/// Whether three balances, in ten-thousandths, form a consistent account:
/// none negative, the total fits the decimal range, and it is the sum of the
/// other two.
pub open spec fn balances_valid(available: int, held: int, total: int) -> bool {
    &&& 0 <= available
    &&& 0 <= held
    &&& 0 <= total <= MAX_UNITS
    &&& total == available + held
}

/// A ledger account.
#[derive(Clone, Copy, Debug)]
pub struct Client {
    pub id: ClientId,
    pub available: Amount,
    pub held: Amount,
    pub total: Amount,
    pub locked: bool,
}

/// A zero-balance, unlocked account.
pub open spec fn fresh_client(id: ClientId) -> Client {
    Client {
        id,
        available: Amount { units: 0 },
        held: Amount { units: 0 },
        total: Amount { units: 0 },
        locked: false,
    }
}

impl Client {
    /// The ledger invariant on this account.
    pub open spec fn valid(self) -> bool {
        balances_valid(self.available.value(), self.held.value(), self.total.value())
    }

    pub fn new(id: ClientId) -> (r: Client)
        ensures
            r == fresh_client(id),
            r.valid(),
    {
        Client {
            id,
            available: Amount::zero(),
            held: Amount::zero(),
            total: Amount::zero(),
            locked: false,
        }
    }

    pub fn new_with_values(
        id: ClientId,
        available: Amount,
        held: Amount,
        total: Amount,
        locked: bool,
    ) -> (r: Client)
        ensures
            r == (Client { id, available, held, total, locked }),
    {
        Client { id, available, held, total, locked }
    }

    /// Checks the ledger invariant.
    pub fn check_client_validity(&self) -> (r: bool)
        ensures
            r == self.valid(),
    {
        let a = self.available.units;
        let h = self.held.units;
        let t = self.total.units;
        if a < 0 || h < 0 || t < 0 || t > MAX_UNITS {
            return false;
        }
        if a > t || h > t {
            return false;
        }
        a + h == t
    }
}

/// The ledger store: every known account, keyed by its client identifier.
#[derive(Debug)]
pub struct ClientPool {
    clients: BTreeMap<u16, Client>,
}

impl Default for ClientPool {
    fn default() -> (r: ClientPool)
        ensures
            r@ == Map::<u16, Client>::empty(),
            r.wf(),
    {
        ClientPool::new()
    }
}

impl ClientPool {
    /// The accounts, by identifier.
    pub closed spec fn view(&self) -> Map<u16, Client> {
        self.clients@
    }

    /// Every account is stored under its own identifier and keeps the ledger
    /// invariant.
    pub open spec fn wf(&self) -> bool {
        pool_valid(self@)
    }

    pub fn new() -> (r: ClientPool)
        ensures
            r@ == Map::<u16, Client>::empty(),
            r.wf(),
    {
        ClientPool { clients: BTreeMap::new() }
    }

    /// Stores `client` under its identifier, replacing any account there.
    pub fn add_client(&mut self, client: Client)
        ensures
            final(self)@ == old(self)@.insert(client.id.0, client),
            old(self).wf() && client.valid() ==> final(self).wf(),
    {
        self.clients.insert(client.id.0, client);
    }

    pub fn has_client(&self, client_id: &ClientId) -> (r: bool)
        ensures
            r == self@.contains_key(client_id.0),
    {
        self.clients.contains_key(&client_id.0)
    }

    pub fn get_client(&self, client_id: ClientId) -> (r: Option<&Client>)
        ensures
            match r {
                Some(c) => self@.contains_key(client_id.0) && *c == self@[client_id.0],
                None => !self@.contains_key(client_id.0),
            },
    {
        self.clients.get(&client_id.0)
    }

    /// The report: a header line, then one line per account in ascending
    /// identifier order.
    pub fn format_for_print(&self) -> (r: String)
        requires
            self.wf(),
        ensures
            r@ == report_header() + report_rows(self@, 0x10000),
    {
        let mut output = String::from_str("client, available, held, total, locked\n");
        proof {
            reveal_strlit("client, available, held, total, locked\n");
        }
        let mut id: u32 = 0;
        while id < 0x10000
            invariant
                id <= 0x10000,
                self.wf(),
                output@ == report_header() + report_rows(self@, id as int),
            decreases 0x10000 - id,
        {
            let key = id as u16;
            match self.clients.get(&key) {
                Some(client) => {
                    let row = report_row(client);
                    output.append(row.as_str());
                    assert(output@ =~= report_header() + report_rows(self@, id + 1));
                },
                None => {},
            }
            id = id + 1;
        }
        output
    }
}

/// Every account is stored under its own identifier and is valid.
pub open spec fn pool_valid(m: Map<u16, Client>) -> bool {
    forall|k: u16| #[trigger] m.contains_key(k) ==> m[k].id.0 == k && m[k].valid()
}

pub open spec fn report_header() -> Seq<char> {
    "client, available, held, total, locked\n"@
}

pub open spec fn bool_text(b: bool) -> Seq<char> {
    if b { "true"@ } else { "false"@ }
}

/// The layout of one report line, from the texts of its five columns.
pub open spec fn row_layout(id: Seq<char>, available: Seq<char>, held: Seq<char>, total: Seq<char>, locked: bool) -> Seq<char> {
    id + ", "@ + available + ", "@ + held + ", "@ + total + ", "@ + bool_text(locked) + "\n"@
}

/// One report line for an account.
pub open spec fn row_text(c: Client) -> Seq<char> {
    row_layout(
        digits_of(c.id.0 as nat),
        four_place_text(c.available.value()),
        four_place_text(c.held.value()),
        four_place_text(c.total.value()),
        c.locked,
    )
}

/// The report lines of the accounts whose identifiers are below `n`, in
/// ascending order.
pub open spec fn report_rows(m: Map<u16, Client>, n: int) -> Seq<char>
    decreases n,
{
    if n <= 0 {
        Seq::empty()
    } else if m.contains_key((n - 1) as u16) {
        report_rows(m, n - 1) + row_text(m[(n - 1) as u16])
    } else {
        report_rows(m, n - 1)
    }
}

fn report_row(c: &Client) -> (r: String)
    requires
        c.valid(),
    ensures
        r@ == row_text(*c),
{
    let id = c.id.to_text();
    let available = c.available.to_text();
    let held = c.held.to_text();
    let total = c.total.to_text();
    format_row(id.as_str(), available.as_str(), held.as_str(), total.as_str(), c.locked)
}

/// Lays out one report line from the rendered columns.
pub fn format_row(id: &str, available: &str, held: &str, total: &str, locked: bool) -> (r: String)
    ensures
        r@ == row_layout(id@, available@, held@, total@, locked),
{
    let sep = ", ";
    proof {
        reveal_strlit(", ");
        reveal_strlit("true");
        reveal_strlit("false");
        reveal_strlit("\n");
    }
    let mut r = String::from_str(id);
    r.append(sep);
    r.append(available);
    r.append(sep);
    r.append(held);
    r.append(sep);
    r.append(total);
    r.append(sep);
    if locked {
        r.append("true");
    } else {
        r.append("false");
    }
    r.append("\n");
    r
}

} // verus!
