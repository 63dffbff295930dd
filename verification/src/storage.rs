//! The balance file: its name, the stable ordering of clients by id and the
//! text written for them. Creating the directory and writing the bytes is
//! done by the caller.

use crate::models::{Client, ClientId};
use crate::money::Money;
use crate::text::{decimal_text, u64_text, u64_text_zero_padded, zero_padded};
use vstd::prelude::*;

verus! {

/// Where balance files are written.
#[derive(Debug)]
pub struct FileStorage {
    base_path: String,
}

/// The clients with id `k`.
pub open spec fn with_id(k: ClientId) -> spec_fn(Client) -> bool {
    |c: Client| c.id == k
}

/// Ids never decrease along the sequence.
pub open spec fn sorted_by_id(s: Seq<Client>) -> bool {
    forall|i: int, j: int| 0 <= i <= j < s.len() ==> #[trigger] s[i].id <= #[trigger] s[j].id
}

/// `output` is `input` sorted by id, with clients of equal id kept in their
/// input order: sorted, and for each id the clients with that id form the
/// same sequence in both.
pub open spec fn stable_sort_by_id(input: Seq<Client>, output: Seq<Client>) -> bool {
    &&& output.len() == input.len()
    &&& sorted_by_id(output)
    &&& forall|k: ClientId| #[trigger] output.filter(with_id(k)) == input.filter(with_id(k))
}

/// One line of the balance file: `<id> <balance>` and a newline.
pub open spec fn balance_line(c: Client) -> Seq<char> {
    decimal_text(c.id as nat) + " "@ + c.balance.display() + "\n"@
}

/// The lines of the balance file for the clients in this order.
pub open spec fn balance_lines(s: Seq<Client>) -> Seq<char>
    decreases s.len(),
{
    if s.len() == 0 {
        Seq::<char>::empty()
    } else {
        balance_lines(s.drop_last()) + balance_line(s.last())
    }
}

/// The name of the file with number `file_counter` written on `date`.
pub open spec fn balance_file_name(date: Seq<char>, file_counter: u64) -> Seq<char> {
    date + "_"@ + decimal_text(file_counter as nat) + ".DAT"@
}

/// The year as chrono's `%Y` writes it: zero-padded to four digits, and
/// with a sign in front outside `0..=9999`.
pub open spec fn year_text(year: int) -> Seq<char> {
    if 0 <= year <= 9999 {
        zero_padded(year as nat, 4)
    } else if year < 0 {
        seq!['-'] + zero_padded((-year) as nat, 4)
    } else {
        seq!['+'] + zero_padded(year as nat, 4)
    }
}

/// The date in a balance file name, as `%d%m%Y`.
pub open spec fn date_stamp(day: nat, month: nat, year: int) -> Seq<char> {
    zero_padded(day, 2) + zero_padded(month, 2) + year_text(year)
}

/// Filtering keeps nothing from a sequence where nothing passes.
proof fn lemma_filter_none(s: Seq<Client>, p: spec_fn(Client) -> bool)
    requires
        forall|i: int| 0 <= i < s.len() ==> !p(#[trigger] s[i]),
    ensures
        s.filter(p) == Seq::<Client>::empty(),
    decreases s.len(),
{
    reveal(Seq::filter);
    if s.len() > 0 {
        lemma_filter_none(s.drop_last(), p);
    }
}

/// Inserting `x` after every client with an id not above its own and
/// before every client with a larger id keeps the order and appends `x` to
/// the clients of its id.
proof fn lemma_insert_in_order(s: Seq<Client>, pos: int, x: Client)
    requires
        sorted_by_id(s),
        0 <= pos <= s.len(),
        forall|j: int| 0 <= j < pos ==> #[trigger] s[j].id <= x.id,
        forall|j: int| pos <= j < s.len() ==> #[trigger] s[j].id > x.id,
    ensures
        sorted_by_id(s.insert(pos, x)),
        forall|k: ClientId| #[trigger] s.insert(pos, x).filter(with_id(k)) == if k == x.id {
            s.filter(with_id(k)).push(x)
        } else {
            s.filter(with_id(k))
        },
{
    let t = s.insert(pos, x);
    assert forall|i: int, j: int| 0 <= i <= j < t.len() implies #[trigger] t[i].id <= #[trigger] t[j].id by {
        if i < pos && j > pos {
            assert(t[j] == s[j - 1]);
        } else if i > pos {
            assert(t[i] == s[i - 1] && t[j] == s[j - 1]);
        } else if j < pos {
            assert(t[i] == s[i] && t[j] == s[j]);
        }
    }
    let a = s.take(pos);
    let b = s.skip(pos);
    assert(s =~= a + b);
    assert(t =~= a + seq![x] + b);
    assert forall|k: ClientId| #[trigger] t.filter(with_id(k)) == if k == x.id {
        s.filter(with_id(k)).push(x)
    } else {
        s.filter(with_id(k))
    } by {
        let p = with_id(k);
        Seq::filter_distributes_over_add(a + seq![x], b, p);
        Seq::filter_distributes_over_add(a, seq![x], p);
        Seq::filter_distributes_over_add(a, b, p);
        reveal_with_fuel(Seq::filter, 2);
        assert(seq![x].drop_last() =~= Seq::<Client>::empty());
        if k == x.id {
            lemma_filter_none(b, p);
            assert(a.filter(p) + seq![x].filter(p) =~= a.filter(p).push(x));
            assert(a.filter(p) + b.filter(p) =~= a.filter(p));
        } else {
            assert(seq![x].filter(p) =~= Seq::<Client>::empty());
            assert(a.filter(p) + seq![x].filter(p) =~= a.filter(p));
        }
    }
}

/// Sorts clients by id, keeping clients of equal id in their input order
/// (what `sort_by_key` on the id does).
pub fn sort_by_id(clients: Vec<Client>) -> (sorted: Vec<Client>)
    ensures
        stable_sort_by_id(clients@, sorted@),
{
    let ghost input = clients@;
    let mut sorted: Vec<Client> = Vec::new();
    let mut rest = clients;
    let mut taken: usize = 0;
    let total = rest.len();
    while rest.len() > 0
        invariant
            total == input.len(),
            taken + rest@.len() == total,
            rest@ == input.skip(taken as int),
            sorted@.len() == taken,
            sorted_by_id(sorted@),
            forall|k: ClientId| #[trigger] sorted@.filter(with_id(k)) == input.take(taken as int).filter(with_id(k)),
        decreases rest@.len(),
    {
        let x = rest.remove(0);
        let mut pos: usize = 0;
        while pos < sorted.len() && sorted[pos].id <= x.id
            invariant
                pos <= sorted@.len(),
                forall|j: int| 0 <= j < pos ==> #[trigger] sorted@[j].id <= x.id,
            decreases sorted@.len() - pos,
        {
            pos = pos + 1;
        }
        proof {
            assert forall|j: int| pos <= j < sorted@.len() implies #[trigger] sorted@[j].id > x.id by {
                assert(sorted@[pos as int].id > x.id);
                assert(sorted@[pos as int].id <= sorted@[j].id);
            }
            lemma_insert_in_order(sorted@, pos as int, x);
            assert(input.take(taken + 1) =~= input.take(taken as int).push(x));
            assert forall|k: ClientId| #[trigger] input.take(taken + 1).filter(with_id(k)) == if k == x.id {
                input.take(taken as int).filter(with_id(k)).push(x)
            } else {
                input.take(taken as int).filter(with_id(k))
            } by {
                input.take(taken as int).lemma_filter_push(x, with_id(k));
            }
        }
        sorted.insert(pos, x);
        taken = taken + 1;
        proof {
            assert(rest@ =~= input.skip(taken as int));
        }
    }
    proof {
        assert(input.take(total as int) =~= input);
    }
    sorted
}

/// Writes the lines of the balance file for the clients in the given order.
pub fn render_balance_lines(clients: &Vec<Client>) -> (text: String)
    requires
        forall|i: int| 0 <= i < clients@.len() ==> (#[trigger] clients@[i]).balance.wf(),
    ensures
        text@ == balance_lines(clients@),
{
    let mut text = String::new();
    let mut i: usize = 0;
    while i < clients.len()
        invariant
            i <= clients@.len(),
            forall|j: int| 0 <= j < clients@.len() ==> (#[trigger] clients@[j]).balance.wf(),
            text@ == balance_lines(clients@.take(i as int)),
        decreases clients@.len() - i,
    {
        let c = &clients[i];
        let id_text = u64_text(c.id);
        let balance_text = c.balance.to_text();
        text.append(id_text.as_str());
        text.append(" ");
        text.append(balance_text.as_str());
        text.append("\n");
        proof {
            let t = clients@.take(i + 1);
            assert(t.drop_last() =~= clients@.take(i as int));
            assert(t.last() == clients@[i as int]);
            assert(text@ =~= balance_lines(t));
        }
        i = i + 1;
    }
    proof {
        assert(clients@.take(clients@.len() as int) =~= clients@);
    }
    text
}

impl FileStorage {
    /// The directory that balance files go to.
    pub closed spec fn base_path_view(&self) -> Seq<char> {
        self.base_path@
    }

    pub fn new(base_path: String) -> (s: FileStorage)
        ensures
            s.base_path_view() == base_path@,
    {
        FileStorage { base_path }
    }

    /// The directory that balance files go to.
    pub fn base_path(&self) -> (p: &str)
        ensures
            p@ == self.base_path_view(),
    {
        self.base_path.as_str()
    }

    /// The date of a balance file name, `DDMMYYYY` (chrono's `%d%m%Y`).
    pub fn balances_file_date(day: u32, month: u32, year: i32) -> (text: String)
        ensures
            text@ == date_stamp(day as nat, month as nat, year as int),
    {
        let mut text = u64_text_zero_padded(day as u64, 2);
        let month_text = u64_text_zero_padded(month as u64, 2);
        text.append(month_text.as_str());
        let ghost prefix = text@;
        if 0 <= year && year <= 9999 {
            let year_digits = u64_text_zero_padded(year as u64, 4);
            text.append(year_digits.as_str());
        } else if year < 0 {
            text.append("-");
            let magnitude: i64 = -(year as i64);
            let year_digits = u64_text_zero_padded(magnitude as u64, 4);
            text.append(year_digits.as_str());
            proof {
                reveal_strlit("-");
                assert(text@ =~= prefix + seq!['-'] + zero_padded((-year) as nat, 4));
            }
        } else {
            text.append("+");
            let year_digits = u64_text_zero_padded(year as u64, 4);
            text.append(year_digits.as_str());
            proof {
                reveal_strlit("+");
                assert(text@ =~= prefix + seq!['+'] + zero_padded(year as nat, 4));
            }
        }
        proof {
            assert(text@ =~= date_stamp(day as nat, month as nat, year as int));
        }
        text
    }

    /// `<date>_<file_counter>.DAT`.
    pub fn balances_file_name(date: &str, file_counter: u64) -> (name: String)
        ensures
            name@ == balance_file_name(date@, file_counter),
    {
        let mut name = String::from_str(date);
        name.append("_");
        let counter = u64_text(file_counter);
        name.append(counter.as_str());
        name.append(".DAT");
        name
    }

    /// The text of the balance file: the clients sorted stably by id, one
    /// `<id> <balance>` line each.
    pub fn balances_file_content(clients: Vec<Client>) -> (text: String)
        requires
            forall|i: int| 0 <= i < clients@.len() ==> (#[trigger] clients@[i]).balance.wf(),
        ensures
            exists|sorted: Seq<Client>| stable_sort_by_id(clients@, sorted),
            forall|sorted: Seq<Client>| stable_sort_by_id(clients@, sorted) ==> text@ == balance_lines(sorted),
    {
        let ghost input = clients@;
        let sorted = sort_by_id(clients);
        proof {
            assert forall|i: int| 0 <= i < sorted@.len() implies (#[trigger] sorted@[i]).balance.wf() by {
                lemma_sorted_member_from_input(input, sorted@, i);
            }
        }
        let text = render_balance_lines(&sorted);
        assert(stable_sort_by_id(input, sorted@));
        assert forall|other: Seq<Client>| stable_sort_by_id(input, other) implies text@ == balance_lines(other) by {
            law_stable_sort_unique(input, sorted@, other);
        }
        text
    }
}

/// The stable sort by id of a sequence is unique: two sequences that both
/// sort the same input stably by id are equal.
pub proof fn law_stable_sort_unique(input: Seq<Client>, a: Seq<Client>, b: Seq<Client>)
    requires
        stable_sort_by_id(input, a),
        stable_sort_by_id(input, b),
    ensures
        a == b,
{
    lemma_sorted_same_groups_equal(a, b);
}

proof fn lemma_sorted_same_groups_equal(a: Seq<Client>, b: Seq<Client>)
    requires
        a.len() == b.len(),
        sorted_by_id(a),
        sorted_by_id(b),
        forall|k: ClientId| #[trigger] a.filter(with_id(k)) == b.filter(with_id(k)),
    ensures
        a == b,
    decreases a.len(),
{
    reveal(Seq::filter);
    if a.len() == 0 {
        assert(a =~= b);
    } else {
        let ka = a.last().id;
        let kb = b.last().id;
        lemma_filter_contains(a, with_id(ka), a.len() - 1);
        assert(b.filter(with_id(ka)).contains(a.last()));
        lemma_filter_subset(b, with_id(ka), a.last());
        let j = choose|j: int| 0 <= j < b.len() && b[j] == a.last();
        assert(b[j].id <= b[b.len() - 1].id);
        lemma_filter_contains(b, with_id(kb), b.len() - 1);
        assert(a.filter(with_id(kb)).contains(b.last()));
        lemma_filter_subset(a, with_id(kb), b.last());
        let i = choose|i: int| 0 <= i < a.len() && a[i] == b.last();
        assert(a[i].id <= a[a.len() - 1].id);
        assert(ka == kb);
        assert(a.filter(with_id(ka)) == a.drop_last().filter(with_id(ka)).push(a.last()));
        assert(b.filter(with_id(ka)) == b.drop_last().filter(with_id(ka)).push(b.last()));
        assert(a.filter(with_id(ka)) == b.filter(with_id(ka)));
        assert(a.filter(with_id(ka)).last() == a.last());
        assert(b.filter(with_id(ka)).last() == b.last());
        assert(a.last() == b.last());
        assert forall|k: ClientId| #[trigger] a.drop_last().filter(with_id(k)) == b.drop_last().filter(with_id(k)) by {
            assert(a.filter(with_id(k)) == b.filter(with_id(k)));
            if k == ka {
                assert(a.drop_last().filter(with_id(k)) =~= a.filter(with_id(k)).drop_last());
                assert(b.drop_last().filter(with_id(k)) =~= b.filter(with_id(k)).drop_last());
            }
        }
        lemma_sorted_same_groups_equal(a.drop_last(), b.drop_last());
        assert(a =~= a.drop_last().push(a.last()));
        assert(b =~= b.drop_last().push(b.last()));
    }
}

/// No two clients in the sequence have the same id.
pub open spec fn ids_distinct(s: Seq<Client>) -> bool {
    forall|i: int, j: int| 0 <= i < j < s.len() ==> #[trigger] s[i].id != #[trigger] s[j].id
}

/// Without repeated ids, the clients with id `k` are just the one that has it.
proof fn lemma_filter_distinct(s: Seq<Client>, i: int)
    requires
        ids_distinct(s),
        0 <= i < s.len(),
    ensures
        s.filter(with_id(s[i].id)) == seq![s[i]],
    decreases s.len(),
{
    reveal(Seq::filter);
    let k = s[i].id;
    let rest = s.drop_last();
    if i == s.len() - 1 {
        assert forall|j: int| 0 <= j < rest.len() implies !(with_id(k))(#[trigger] rest[j]) by {
            assert(s[j].id != s[i].id);
        }
        lemma_filter_none(rest, with_id(k));
        assert(s.filter(with_id(k)) =~= seq![s[i]]);
    } else {
        assert(ids_distinct(rest));
        lemma_filter_distinct(rest, i);
        assert(rest[i] == s[i]);
        assert(s.last().id != k);
    }
}

/// The balance file does not depend on the order of the clients given to it,
/// when no id is repeated: two orderings of the same clients sort to the same
/// sequence, and so give the same lines.
pub proof fn law_balance_file_order_independent(a: Seq<Client>, b: Seq<Client>, sorted_a: Seq<Client>, sorted_b: Seq<Client>)
    requires
        a.to_multiset() == b.to_multiset(),
        ids_distinct(a),
        ids_distinct(b),
        stable_sort_by_id(a, sorted_a),
        stable_sort_by_id(b, sorted_b),
    ensures
        sorted_a == sorted_b,
        balance_lines(sorted_a) == balance_lines(sorted_b),
{
    broadcast use vstd::seq_lib::to_multiset_contains, vstd::seq_lib::to_multiset_len;

    assert(a.len() == a.to_multiset().len());
    assert(b.len() == b.to_multiset().len());
    assert forall|k: ClientId| #[trigger] a.filter(with_id(k)) == b.filter(with_id(k)) by {
        if exists|i: int| 0 <= i < a.len() && a[i].id == k {
            let i = choose|i: int| 0 <= i < a.len() && a[i].id == k;
            let x = a[i];
            assert(a.contains(x));
            assert(a.to_multiset().count(x) > 0);
            assert(b.contains(x));
            let j = choose|j: int| 0 <= j < b.len() && b[j] == x;
            lemma_filter_distinct(a, i);
            lemma_filter_distinct(b, j);
        } else if exists|j: int| 0 <= j < b.len() && b[j].id == k {
            let j = choose|j: int| 0 <= j < b.len() && b[j].id == k;
            let x = b[j];
            assert(b.contains(x));
            assert(b.to_multiset().count(x) > 0);
            assert(a.contains(x));
            let i = choose|i: int| 0 <= i < a.len() && a[i] == x;
            assert(a[i].id == k);
        } else {
            lemma_filter_none(a, with_id(k));
            lemma_filter_none(b, with_id(k));
        }
    }
    assert forall|k: ClientId| #[trigger] sorted_a.filter(with_id(k)) == sorted_b.filter(with_id(k)) by {
        assert(sorted_a.filter(with_id(k)) == a.filter(with_id(k)));
        assert(sorted_b.filter(with_id(k)) == b.filter(with_id(k)));
    }
    lemma_sorted_same_groups_equal(sorted_a, sorted_b);
}

/// Every client in a stable sort comes from the input.
proof fn lemma_sorted_member_from_input(input: Seq<Client>, output: Seq<Client>, i: int)
    requires
        stable_sort_by_id(input, output),
        0 <= i < output.len(),
    ensures
        input.contains(output[i]),
{
    let x = output[i];
    let p = with_id(x.id);
    lemma_filter_contains(output, p, i);
    assert(output.filter(p).contains(x));
    assert(input.filter(p).contains(x));
    lemma_filter_subset(input, p, x);
}

proof fn lemma_filter_contains(s: Seq<Client>, p: spec_fn(Client) -> bool, i: int)
    requires
        0 <= i < s.len(),
        p(s[i]),
    ensures
        s.filter(p).contains(s[i]),
    decreases s.len(),
{
    reveal(Seq::filter);
    if i < s.len() - 1 {
        lemma_filter_contains(s.drop_last(), p, i);
        let f = s.drop_last().filter(p);
        let j = choose|j: int| 0 <= j < f.len() && f[j] == s[i];
        if p(s.last()) {
            assert(s.filter(p)[j] == s[i]);
        }
    } else {
        assert(s.filter(p).last() == s[i]);
    }
}

proof fn lemma_filter_subset(s: Seq<Client>, p: spec_fn(Client) -> bool, x: Client)
    requires
        s.filter(p).contains(x),
    ensures
        s.contains(x),
    decreases s.len(),
{
    reveal(Seq::filter);
    if s.len() > 0 {
        let f = s.drop_last().filter(p);
        if f.contains(x) {
            lemma_filter_subset(s.drop_last(), p, x);
            let j = choose|j: int| 0 <= j < s.drop_last().len() && s.drop_last()[j] == x;
            assert(s[j] == x);
        } else {
            assert(s.last() == x);
        }
    }
}

} // verus!
