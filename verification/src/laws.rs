//! Properties of the service that span operations or hold of every state.

use crate::balances::balances_reset;
use crate::errors::AppError;
use crate::models::{Client, ClientId, NewClientRequest, NewClientResponse, TransactionRequest, TransactionResponse};
use crate::money::{lemma_compare_at_scale, lemma_pow10_positive, lemma_rescale, max_scale, pow10, Money};
use crate::processing::worker_for;
use crate::services::{
    client_data_problem, credit_outcome, debit_outcome, registered_client, registration_outcome,
    same_contents,
};
use crate::storage::balance_file_name;
use crate::store::InMemoryStore;
use crate::text::{decimal_text, digit_char, unicode_white_space, zero_padded};
use crate::config::{all_digits, digits_value, is_ascii_digit, parse_unsigned, unsigned_digits, AppConfig};
use crate::money::{decimal_display, MAX_MANTISSA};
use crate::processing::{event_outcome, PaymentEvent};
use crate::storage::{balance_line, date_stamp, year_text};
use vstd::prelude::*;

verus! {

/// No two clients share a document number.
pub proof fn law_document_numbers_unique(store: &InMemoryStore, a: ClientId, b: ClientId)
    requires
        store.wf(),
        store.has_client(a),
        store.has_client(b),
        a != b,
    ensures
        store.client(a).document_number@ != store.client(b).document_number@,
{
}

/// A successful registration hands out the id one above the last one, an id
/// no client had before, and adds exactly one client.
pub proof fn law_registration_assigns_next_id(
    before: &InMemoryStore,
    after: &InMemoryStore,
    request: NewClientRequest,
    r: Result<NewClientResponse, AppError>,
)
    requires
        before.wf(),
        before.next_client_id < ClientId::MAX,
        registration_outcome(before, after, request, r),
        r is Ok,
    ensures
        r->Ok_0.client_id == before.next_client_id + 1,
        !before.has_client(r->Ok_0.client_id),
        after.clients@.dom() == before.clients@.dom().insert(r->Ok_0.client_id),
{
    assert(!before.has_client((before.next_client_id + 1) as ClientId));
    assert(after.clients@.dom() =~= before.clients@.dom().insert(r->Ok_0.client_id));
}

/// A client that was registered is found under its id with the data it was
/// registered with and a zero balance; the other clients are unchanged.
pub proof fn law_registered_client_is_found(
    before: &InMemoryStore,
    after: &InMemoryStore,
    request: NewClientRequest,
    r: Result<NewClientResponse, AppError>,
)
    requires
        before.wf(),
        before.next_client_id < ClientId::MAX,
        registration_outcome(before, after, request, r),
        r is Ok,
    ensures
        after.has_client(r->Ok_0.client_id),
        after.client(r->Ok_0.client_id).client_name == request.client_name,
        after.client(r->Ok_0.client_id).birth_date == request.birth_date,
        after.client(r->Ok_0.client_id).document_number == request.document_number,
        after.client(r->Ok_0.client_id).country == request.country,
        after.client(r->Ok_0.client_id).balance == Money::spec_zero(),
        after.has_document(request.document_number@),
        forall|other: ClientId| #[trigger] before.has_client(other) ==> after.has_client(other) && after.client(other) == before.client(other),
{
    let id = r->Ok_0.client_id;
    assert(after.client(id) == registered_client(id, request));
    assert forall|other: ClientId| #[trigger] before.has_client(other) implies after.has_client(other) && after.client(other) == before.client(other) by {
        assert(other != id);
    }
}

/// A refused registration leaves the store as it was.
pub proof fn law_refused_registration_changes_nothing(
    before: &InMemoryStore,
    after: &InMemoryStore,
    request: NewClientRequest,
    r: Result<NewClientResponse, AppError>,
)
    requires
        registration_outcome(before, after, request, r),
        r is Err,
    ensures
        same_contents(before, after),
{
}

/// Once a document number is registered, registering it again with valid
/// data is refused as a duplicate and changes nothing.
pub proof fn law_document_number_registers_once(
    s0: &InMemoryStore,
    s1: &InMemoryStore,
    s2: &InMemoryStore,
    first: NewClientRequest,
    second: NewClientRequest,
    r1: Result<NewClientResponse, AppError>,
    r2: Result<NewClientResponse, AppError>,
)
    requires
        s0.wf(),
        s0.next_client_id < ClientId::MAX,
        registration_outcome(s0, s1, first, r1),
        r1 is Ok,
        registration_outcome(s1, s2, second, r2),
        second.document_number@ == first.document_number@,
        client_data_problem(&second) is None,
    ensures
        r2 matches Err(e) && (e matches AppError::DuplicateDocumentNumber),
        same_contents(s1, s2),
{
    assert(s1.document_index@.contains_key(first.document_number@));
}

/// After a successful credit the client's stored balance is the balance in
/// the answer, and no other client changed.
pub proof fn law_credit_is_read_back(
    before: &InMemoryStore,
    after: &InMemoryStore,
    request: TransactionRequest,
    r: Result<TransactionResponse, AppError>,
)
    requires
        credit_outcome(before, after, request, r),
        r is Ok,
    ensures
        after.has_client(request.client_id),
        after.client(request.client_id).balance == r->Ok_0.balance,
        forall|other: ClientId| other != request.client_id ==> #[trigger] after.clients@.contains_key(other) == before.clients@.contains_key(other) && (before.has_client(other) ==> after.client(other) == before.client(other)),
{
}

/// After a successful debit the client's stored balance is the balance in
/// the answer, and no other client changed.
pub proof fn law_debit_is_read_back(
    before: &InMemoryStore,
    after: &InMemoryStore,
    request: TransactionRequest,
    limit: Money,
    r: Result<TransactionResponse, AppError>,
)
    requires
        debit_outcome(before, after, request, limit, r),
        r is Ok,
    ensures
        after.has_client(request.client_id),
        after.client(request.client_id).balance == r->Ok_0.balance,
        forall|other: ClientId| other != request.client_id ==> #[trigger] after.clients@.contains_key(other) == before.clients@.contains_key(other) && (before.has_client(other) ==> after.client(other) == before.client(other)),
{
}

/// A successful debit leaves the balance at or above the overdraft limit,
/// and the balance before it was strictly above the limit.
pub proof fn law_debit_respects_overdraft_limit(
    before: &InMemoryStore,
    after: &InMemoryStore,
    request: TransactionRequest,
    limit: Money,
    r: Result<TransactionResponse, AppError>,
)
    requires
        debit_outcome(before, after, request, limit, r),
        r is Ok,
    ensures
        !after.client(request.client_id).balance.value_lt(limit),
        !before.client(request.client_id).balance.value_le(limit),
{
}

/// Every balance at or above the overdraft limit stays so through a debit.
pub proof fn law_debit_keeps_balances_above_limit(
    before: &InMemoryStore,
    after: &InMemoryStore,
    request: TransactionRequest,
    limit: Money,
    r: Result<TransactionResponse, AppError>,
)
    requires
        debit_outcome(before, after, request, limit, r),
        forall|id: ClientId| #[trigger] before.has_client(id) ==> !before.client(id).balance.value_lt(limit),
    ensures
        forall|id: ClientId| #[trigger] after.has_client(id) ==> !after.client(id).balance.value_lt(limit),
{
    assert forall|id: ClientId| #[trigger] after.has_client(id) implies !after.client(id).balance.value_lt(limit) by {
        assert(before.has_client(id));
    }
}

/// A debit that is computed without rounding (the amounts align and the
/// difference fits in 96 bits) lowers the balance as a number.
pub proof fn law_debit_lowers_balance(
    before: &InMemoryStore,
    after: &InMemoryStore,
    request: TransactionRequest,
    limit: Money,
    r: Result<TransactionResponse, AppError>,
)
    requires
        debit_outcome(before, after, request, limit, r),
        r is Ok,
        before.client(request.client_id).balance.exact_difference(request.amount) is Some,
    ensures
        after.client(request.client_id).balance.value_lt(before.client(request.client_id).balance),
{
    let b = before.client(request.client_id).balance;
    let a = request.amount;
    let n = after.client(request.client_id).balance;
    let k = max_scale(b.scale, a.scale) as nat;
    assert(n == b.exact_difference(a)->0);
    lemma_pow10_positive((k - a.scale) as nat);
    assert(a.scaled_to(k) > 0) by (nonlinear_arith)
        requires
            a.mantissa > 0,
            pow10((k - a.scale) as nat) > 0,
            a.scaled_to(k) == a.mantissa * pow10((k - a.scale) as nat),
    ;
    assert(n.scale == k);
    assert(pow10(0) == 1);
    assert(n.scaled_to(k) == n.mantissa);
    lemma_compare_at_scale(n, b, k);
}

/// A debit of the amount just credited gives the balance back as a number,
/// where the balance was at or above the overdraft limit and both steps are
/// computed without rounding (the answer is written at the larger scale).
pub proof fn law_debit_undoes_credit(
    s0: &InMemoryStore,
    s1: &InMemoryStore,
    s2: &InMemoryStore,
    request: TransactionRequest,
    limit: Money,
    r1: Result<TransactionResponse, AppError>,
    r2: Result<TransactionResponse, AppError>,
)
    requires
        s0.has_client(request.client_id),
        request.amount.mantissa > 0,
        !s0.client(request.client_id).balance.value_lt(limit),
        s0.client(request.client_id).balance.exact_sum(request.amount) is Some,
        s0.client(request.client_id).balance.exact_sum(request.amount)->0.exact_difference(request.amount) is Some,
        credit_outcome(s0, s1, request, r1),
        debit_outcome(s1, s2, request, limit, r2),
    ensures
        r2 is Ok,
        r2->Ok_0.balance.value_eq(s0.client(request.client_id).balance),
        r2->Ok_0.balance.scale == max_scale(s0.client(request.client_id).balance.scale, request.amount.scale),
        s2.clients@ == s0.clients@.insert(request.client_id, Client { balance: r2->Ok_0.balance, ..s0.client(request.client_id) }),
{
    let id = request.client_id;
    let b = s0.client(id).balance;
    let a = request.amount;
    let c = s1.client(id).balance;
    let k = max_scale(b.scale, a.scale) as nat;
    let big = if k >= limit.scale { k } else { limit.scale as nat };
    assert(c == b.exact_sum(a)->0);
    assert(c.scale == k);
    let d = c.exact_difference(a)->0;
    assert(max_scale(c.scale, a.scale) == k);
    assert(pow10(0) == 1);
    assert(c.scaled_to(k) == c.mantissa);
    assert(d.mantissa == b.scaled_to(k));
    assert(d.scale == k);
    // written at `big`, c is b plus a positive amount, and d is b
    lemma_rescale(b.mantissa as int, b.scale as nat, k, big);
    lemma_rescale(a.mantissa as int, a.scale as nat, k, big);
    let x = b.scaled_to(k);
    let y = a.scaled_to(k);
    let e = pow10((big - k) as nat);
    lemma_pow10_positive((big - a.scale) as nat);
    assert(c.scaled_to(big) == b.scaled_to(big) + a.scaled_to(big)) by (nonlinear_arith)
        requires
            c.scaled_to(big) == c.mantissa * e,
            c.mantissa == x + y,
            x * e == b.scaled_to(big),
            y * e == a.scaled_to(big),
    ;
    assert(a.scaled_to(big) > 0) by (nonlinear_arith)
        requires
            a.mantissa > 0,
            pow10((big - a.scale) as nat) > 0,
            a.scaled_to(big) == a.mantissa * pow10((big - a.scale) as nat),
    ;
    assert(d.scaled_to(big) == b.scaled_to(big));
    lemma_compare_at_scale(b, limit, big);
    lemma_compare_at_scale(c, limit, big);
    lemma_compare_at_scale(d, limit, big);
    assert(!c.value_le(limit));
    assert(!d.value_lt(limit));
    assert(d.scaled_to(k) == d.mantissa);
    lemma_compare_at_scale(d, b, k);
    assert(s2.clients@ =~= s0.clients@.insert(id, Client { balance: d, ..s0.client(id) }));
}

/// Two credits computed without rounding add up: written at the largest of
/// the three scales, the new balance is the old one plus both amounts, which
/// does not depend on the order of the credits.
pub proof fn law_credits_compose(
    s0: &InMemoryStore,
    s1: &InMemoryStore,
    s2: &InMemoryStore,
    first: TransactionRequest,
    second: TransactionRequest,
    r1: Result<TransactionResponse, AppError>,
    r2: Result<TransactionResponse, AppError>,
)
    requires
        s0.has_client(first.client_id),
        second.client_id == first.client_id,
        first.amount.mantissa > 0,
        second.amount.mantissa > 0,
        s0.client(first.client_id).balance.exact_sum(first.amount) is Some,
        s0.client(first.client_id).balance.exact_sum(first.amount)->0.exact_sum(second.amount) is Some,
        credit_outcome(s0, s1, first, r1),
        credit_outcome(s1, s2, second, r2),
    ensures
        r2 == Ok::<TransactionResponse, AppError>(TransactionResponse { balance: s2.client(first.client_id).balance }),
        s2.client(first.client_id).balance.scale == max_scale(
            max_scale(s0.client(first.client_id).balance.scale, first.amount.scale),
            second.amount.scale,
        ),
        s2.client(first.client_id).balance.mantissa == s0.client(first.client_id).balance.scaled_to(
            s2.client(first.client_id).balance.scale as nat,
        ) + first.amount.scaled_to(s2.client(first.client_id).balance.scale as nat)
            + second.amount.scaled_to(s2.client(first.client_id).balance.scale as nat),
{
    let id = first.client_id;
    let b = s0.client(id).balance;
    let a1 = first.amount;
    let a2 = second.amount;
    let c1 = s1.client(id).balance;
    let c2 = s2.client(id).balance;
    let k1 = max_scale(b.scale, a1.scale) as nat;
    let k2 = c2.scale as nat;
    assert(c1 == b.exact_sum(a1)->0);
    assert(c2 == c1.exact_sum(a2)->0);
    lemma_rescale(b.mantissa as int, b.scale as nat, k1, k2);
    lemma_rescale(a1.mantissa as int, a1.scale as nat, k1, k2);
    let e = pow10((k2 - k1) as nat);
    let x = b.scaled_to(k1);
    let y = a1.scaled_to(k1);
    assert(c1.scaled_to(k2) == b.scaled_to(k2) + a1.scaled_to(k2)) by (nonlinear_arith)
        requires
            c1.scaled_to(k2) == c1.mantissa * e,
            c1.mantissa == x + y,
            x * e == b.scaled_to(k2),
            y * e == a1.scaled_to(k2),
    ;
}

/// A refused credit leaves the store as it was.
pub proof fn law_refused_credit_changes_nothing(
    before: &InMemoryStore,
    after: &InMemoryStore,
    request: TransactionRequest,
    r: Result<TransactionResponse, AppError>,
)
    requires
        credit_outcome(before, after, request, r),
        r is Err,
    ensures
        same_contents(before, after),
{
}

/// A refused debit leaves the store as it was.
pub proof fn law_refused_debit_changes_nothing(
    before: &InMemoryStore,
    after: &InMemoryStore,
    request: TransactionRequest,
    limit: Money,
    r: Result<TransactionResponse, AppError>,
)
    requires
        debit_outcome(before, after, request, limit, r),
        r is Err,
    ensures
        same_contents(before, after),
{
}

/// A non-positive amount is refused as invalid, whoever the client is and
/// whatever the balance.
pub proof fn law_non_positive_amount_refused(
    before: &InMemoryStore,
    after: &InMemoryStore,
    request: TransactionRequest,
    limit: Money,
    credit: Result<TransactionResponse, AppError>,
    debit: Result<TransactionResponse, AppError>,
)
    requires
        request.amount.mantissa <= 0,
        credit_outcome(before, after, request, credit) || debit_outcome(before, after, request, limit, debit),
    ensures
        credit_outcome(before, after, request, credit) ==> credit == Err::<TransactionResponse, AppError>(AppError::InvalidAmount),
        debit_outcome(before, after, request, limit, debit) ==> debit == Err::<TransactionResponse, AppError>(AppError::InvalidAmount),
{
}

/// After a snapshot every client is still there, with its data, and a zero balance.
pub proof fn law_snapshot_zeroes_every_balance(before: &InMemoryStore, after: &InMemoryStore, id: ClientId)
    requires
        balances_reset(before, after),
        before.has_client(id),
    ensures
        after.has_client(id),
        after.client(id).balance == Money::spec_zero(),
        after.client(id).id == before.client(id).id,
        after.client(id).document_number == before.client(id).document_number,
{
}

proof fn lemma_digit_char_injective(a: nat, b: nat)
    requires
        a < 10,
        b < 10,
        digit_char(a) == digit_char(b),
    ensures
        a == b,
{
}

proof fn lemma_decimal_text_len(n: nat)
    ensures
        decimal_text(n).len() >= 1,
        n >= 10 <==> decimal_text(n).len() >= 2,
    decreases n,
{
    if n >= 10 {
        lemma_decimal_text_len(n / 10);
    }
}

/// Different numbers are written differently.
pub proof fn law_decimal_text_injective(a: nat, b: nat)
    requires
        decimal_text(a) == decimal_text(b),
    ensures
        a == b,
    decreases a,
{
    lemma_decimal_text_len(a);
    lemma_decimal_text_len(b);
    if a < 10 {
        assert(decimal_text(a) == seq![digit_char(a)]);
        assert(b < 10);
        assert(decimal_text(b) == seq![digit_char(b)]);
        assert(decimal_text(a)[0] == decimal_text(b)[0]);
        assert(seq![digit_char(a)][0] == digit_char(a));
        assert(seq![digit_char(b)][0] == digit_char(b));
        lemma_digit_char_injective(a, b);
    } else {
        let ta = decimal_text(a);
        assert(ta.last() == digit_char(a % 10));
        assert(decimal_text(b).last() == digit_char(b % 10));
        lemma_digit_char_injective(a % 10, b % 10);
        assert(decimal_text(a / 10) =~= ta.drop_last());
        assert(decimal_text(b / 10) =~= decimal_text(b).drop_last());
        law_decimal_text_injective(a / 10, b / 10);
    }
}

/// Snapshots written on the same day get distinct file names, since each
/// one takes the next file number.
pub proof fn law_file_names_distinct(date: Seq<char>, first: u64, second: u64)
    requires
        first != second,
    ensures
        balance_file_name(date, first) != balance_file_name(date, second),
{
    let fa = balance_file_name(date, first);
    let fb = balance_file_name(date, second);
    if fa == fb {
        let ta = decimal_text(first as nat);
        let tb = decimal_text(second as nat);
        let prefix = date + "_"@;
        let suffix = ".DAT"@;
        assert(fa =~= prefix + ta + suffix);
        assert(fb =~= prefix + tb + suffix);
        assert(ta.len() == tb.len());
        assert(ta =~= fa.subrange(prefix.len() as int, (prefix.len() + ta.len()) as int));
        assert(tb =~= fb.subrange(prefix.len() as int, (prefix.len() + tb.len()) as int));
        law_decimal_text_injective(first as nat, second as nat);
    }
}

/// Every client is served by one of the workers, always the same one.
pub proof fn law_client_has_one_worker(client_id: ClientId, worker_count: usize)
    requires
        worker_count > 0,
    ensures
        worker_for(client_id, worker_count) < worker_count,
{
}

/// A digit character stands for its digit.
proof fn lemma_digit_char_value(d: nat)
    requires
        d < 10,
    ensures
        is_ascii_digit(digit_char(d)),
        (digit_char(d) as int) - ('0' as int) == d,
{
    let s = seq!['0', '1', '2', '3', '4', '5', '6', '7', '8', '9'];
    assert(digit_char(d) == s[d as int]);
    if d == 0 { assert(s[0] == '0'); }
    else if d == 1 { assert(s[1] == '1'); }
    else if d == 2 { assert(s[2] == '2'); }
    else if d == 3 { assert(s[3] == '3'); }
    else if d == 4 { assert(s[4] == '4'); }
    else if d == 5 { assert(s[5] == '5'); }
    else if d == 6 { assert(s[6] == '6'); }
    else if d == 7 { assert(s[7] == '7'); }
    else if d == 8 { assert(s[8] == '8'); }
    else { assert(s[9] == '9'); }
}

/// The decimal text of a number is made of digits and reads back as the number.
pub proof fn law_decimal_text_reads_back(n: nat)
    ensures
        all_digits(decimal_text(n)),
        digits_value(decimal_text(n)) == n,
        decimal_text(n).len() >= 1,
    decreases n,
{
    let t = decimal_text(n);
    if n < 10 {
        lemma_digit_char_value(n);
        assert(t.drop_last() =~= Seq::<char>::empty());
        assert(digits_value(t.drop_last()) == 0);
        assert(t.last() == digit_char(n));
        assert(digits_value(t) == digits_value(t.drop_last()) * 10 + ((t.last() as int) - ('0' as int)) as nat);
    } else {
        law_decimal_text_reads_back(n / 10);
        lemma_digit_char_value(n % 10);
        let p = decimal_text(n / 10);
        assert(t == p.push(digit_char(n % 10)));
        assert(t.drop_last() =~= p);
        assert forall|i: int| 0 <= i < t.len() implies is_ascii_digit(#[trigger] t[i]) by {
            if i < t.len() - 1 {
                assert(t[i] == p[i]);
            }
        }
        assert(digits_value(t) == digits_value(t.drop_last()) * 10 + ((t.last() as int) - ('0' as int)) as nat);
        assert(digits_value(t) == (n / 10) * 10 + n % 10);
        assert(n == (n / 10) * 10 + n % 10);
    }
}

/// The decimal text of a number below `10^w` has at most `w` digits.
proof fn lemma_decimal_text_short(n: nat, w: nat)
    requires
        w >= 1,
        n < pow10(w),
    ensures
        decimal_text(n).len() <= w,
    decreases n,
{
    if n >= 10 {
        assert(pow10(w) == 10 * pow10((w - 1) as nat));
        assert(w >= 2) by {
            if w == 1 {
                assert(pow10(0) == 1);
            }
        }
        assert(n / 10 < pow10((w - 1) as nat));
        lemma_decimal_text_short(n / 10, (w - 1) as nat);
    }
}

/// Leading zeros do not change what digits read as.
proof fn lemma_leading_zeros(z: nat, t: Seq<char>)
    ensures
        digits_value(Seq::new(z, |i: int| '0') + t) == digits_value(t),
    decreases t.len(), z,
{
    let zeros = Seq::new(z, |i: int| '0');
    if t.len() == 0 {
        assert(zeros + t =~= zeros);
        if z > 0 {
            let fewer = Seq::new((z - 1) as nat, |i: int| '0');
            lemma_leading_zeros((z - 1) as nat, t);
            assert(fewer + t =~= fewer);
            assert(zeros.drop_last() =~= fewer);
        }
    } else {
        lemma_leading_zeros(z, t.drop_last());
        assert((zeros + t).drop_last() =~= zeros + t.drop_last());
        assert((zeros + t).last() == t.last());
    }
}

/// A number below `10^w`, zero-padded to `w`, is `w` digits reading back as the number.
pub proof fn law_zero_padded_reads_back(n: nat, w: nat)
    requires
        w >= 1,
        n < pow10(w),
    ensures
        zero_padded(n, w).len() == w,
        all_digits(zero_padded(n, w)),
        digits_value(zero_padded(n, w)) == n,
{
    let t = decimal_text(n);
    law_decimal_text_reads_back(n);
    lemma_decimal_text_short(n, w);
    let z = (w - t.len()) as nat;
    lemma_leading_zeros(z, t);
    let p = zero_padded(n, w);
    if t.len() < w {
        assert(p == Seq::new(z, |i: int| '0') + t);
        assert forall|i: int| 0 <= i < p.len() implies is_ascii_digit(#[trigger] p[i]) by {
            if i >= z {
                assert(p[i] == t[i - z]);
            }
        }
    } else {
        assert(Seq::new(z, |i: int| '0') + t =~= t);
    }
}

/// Each line of the balance file starts with the client's full id in
/// decimal, which reads back as the id, followed by a space and the balance
/// as `Decimal` prints it.
pub proof fn law_balance_line_starts_with_id(c: Client)
    ensures
        balance_line(c).take(decimal_text(c.id as nat).len() as int) == decimal_text(c.id as nat),
        balance_line(c)[decimal_text(c.id as nat).len() as int] == ' ',
        all_digits(decimal_text(c.id as nat)),
        digits_value(decimal_text(c.id as nat)) == c.id,
        balance_line(c).skip((decimal_text(c.id as nat).len() + 1) as int) == decimal_display(c.balance.mantissa, c.balance.scale) + "\n"@,
{
    let t = decimal_text(c.id as nat);
    law_decimal_text_reads_back(c.id as nat);
    reveal_strlit(" ");
    let line = balance_line(c);
    assert(line =~= t + seq![' '] + (c.balance.display() + "\n"@));
    assert(line.take(t.len() as int) =~= t);
    assert(line.skip((t.len() + 1) as int) =~= c.balance.display() + "\n"@);
}

/// Clients with different ids get different lines in the balance file.
pub proof fn law_balance_lines_distinguish_ids(a: Client, b: Client)
    requires
        a.id != b.id,
    ensures
        balance_line(a) != balance_line(b),
{
    let ta = decimal_text(a.id as nat);
    let tb = decimal_text(b.id as nat);
    law_balance_line_starts_with_id(a);
    law_balance_line_starts_with_id(b);
    if balance_line(a) == balance_line(b) {
        let line = balance_line(a);
        if ta.len() < tb.len() {
            assert(line[ta.len() as int] == ' ');
            assert(line[ta.len() as int] == line.take(tb.len() as int)[ta.len() as int]);
            assert(is_ascii_digit(tb[ta.len() as int]));
        } else if tb.len() < ta.len() {
            assert(line[tb.len() as int] == ' ');
            assert(line[tb.len() as int] == line.take(ta.len() as int)[tb.len() as int]);
            assert(is_ascii_digit(ta[tb.len() as int]));
        } else {
            assert(ta == tb);
            law_decimal_text_injective(a.id as nat, b.id as nat);
        }
    }
}

/// The date of a balance file is chrono's `%d%m%Y` for a calendar date with
/// a year in `0..=9999`: eight digits, the day in the first two, the month in
/// the next two and the year, unsigned and zero-padded, in the last four.
pub proof fn law_file_date_is_ddmmyyyy(day: nat, month: nat, year: int)
    requires
        1 <= day <= 31,
        1 <= month <= 12,
        0 <= year <= 9999,
    ensures
        date_stamp(day, month, year).len() == 8,
        all_digits(date_stamp(day, month, year)),
        digits_value(date_stamp(day, month, year).take(2)) == day,
        digits_value(date_stamp(day, month, year).subrange(2, 4)) == month,
        digits_value(date_stamp(day, month, year).skip(4)) == year,
{
    reveal_with_fuel(pow10, 5);
    law_zero_padded_reads_back(day, 2);
    law_zero_padded_reads_back(month, 2);
    law_zero_padded_reads_back(year as nat, 4);
    let d = zero_padded(day, 2);
    let m = zero_padded(month, 2);
    let y = year_text(year);
    let s = date_stamp(day, month, year);
    assert(y == zero_padded(year as nat, 4));
    assert(s == d + m + y);
    assert(s.take(2) =~= d);
    assert(s.subrange(2, 4) =~= m);
    assert(s.skip(4) =~= y);
    assert forall|i: int| 0 <= i < s.len() implies is_ascii_digit(#[trigger] s[i]) by {
        if i < 2 {
            assert(s[i] == d[i]);
        } else if i < 4 {
            assert(s[i] == m[i - 2]);
        } else {
            assert(s[i] == y[i - 4]);
        }
    }
}

/// A registration is refused for its data exactly when some field holds only
/// white space: with a non-white-space character in every field and a
/// document number not yet registered, it succeeds with the next id.
pub proof fn law_registration_refuses_only_blank_fields(
    before: &InMemoryStore,
    after: &InMemoryStore,
    request: NewClientRequest,
    r: Result<NewClientResponse, AppError>,
    name_at: int,
    birth_at: int,
    document_at: int,
    country_at: int,
)
    requires
        registration_outcome(before, after, request, r),
        0 <= name_at < request.client_name@.len(),
        !unicode_white_space(request.client_name@[name_at]),
        0 <= birth_at < request.birth_date@.len(),
        !unicode_white_space(request.birth_date@[birth_at]),
        0 <= document_at < request.document_number@.len(),
        !unicode_white_space(request.document_number@[document_at]),
        0 <= country_at < request.country@.len(),
        !unicode_white_space(request.country@[country_at]),
        !before.has_document(request.document_number@),
        before.next_client_id < ClientId::MAX,
    ensures
        client_data_problem(&request) is None,
        r is Ok,
        r->Ok_0.client_id == before.next_client_id + 1,
{
}

/// A registration with a field that holds only white space (or nothing) is
/// refused as invalid data and changes nothing.
pub proof fn law_registration_refuses_blank_fields(
    before: &InMemoryStore,
    after: &InMemoryStore,
    request: NewClientRequest,
    r: Result<NewClientResponse, AppError>,
)
    requires
        registration_outcome(before, after, request, r),
        (forall|i: int| 0 <= i < request.client_name@.len() ==> unicode_white_space(#[trigger] request.client_name@[i]))
            || (forall|i: int| 0 <= i < request.birth_date@.len() ==> unicode_white_space(#[trigger] request.birth_date@[i]))
            || (forall|i: int| 0 <= i < request.document_number@.len() ==> unicode_white_space(#[trigger] request.document_number@[i]))
            || (forall|i: int| 0 <= i < request.country@.len() ==> unicode_white_space(#[trigger] request.country@[i])),
    ensures
        r matches Err(e) && (e matches AppError::InvalidClientData(_)),
        same_contents(before, after),
{
}

/// A debit from a balance above the overdraft limit succeeds whenever the
/// difference, computed exactly, is at or above the limit, whatever the
/// scales of balance and amount: it answers the difference, written at the
/// larger scale, and stores it.
pub proof fn law_debit_within_limit_succeeds(
    before: &InMemoryStore,
    after: &InMemoryStore,
    request: TransactionRequest,
    limit: Money,
    r: Result<TransactionResponse, AppError>,
)
    requires
        debit_outcome(before, after, request, limit, r),
        before.has_client(request.client_id),
        request.amount.mantissa > 0,
        !before.client(request.client_id).balance.value_le(limit),
        before.client(request.client_id).balance.aligns_with(request.amount),
        ({
            let b = before.client(request.client_id).balance;
            let k = max_scale(b.scale, request.amount.scale);
            let m = b.scaled_to(k as nat) - request.amount.scaled_to(k as nat);
            &&& -MAX_MANTISSA <= m <= MAX_MANTISSA
            &&& !(Money { mantissa: m as i128, scale: k }).value_lt(limit)
        }),
    ensures
        ({
            let b = before.client(request.client_id).balance;
            let k = max_scale(b.scale, request.amount.scale);
            let d = Money {
                mantissa: (b.scaled_to(k as nat) - request.amount.scaled_to(k as nat)) as i128,
                scale: k,
            };
            &&& r == Ok::<TransactionResponse, AppError>(TransactionResponse { balance: d })
            &&& after.has_client(request.client_id)
            &&& after.client(request.client_id).balance == d
        }),
{
}

/// A credit event of a positive amount for an existing client, whose sum
/// does not overflow, is exactly the credit: same answer and same store as
/// the credit operation, for any current balance, negative ones included.
pub proof fn law_credit_event_is_the_credit(
    before: &InMemoryStore,
    after: &InMemoryStore,
    config: &AppConfig,
    client_id: ClientId,
    amount: Money,
    r: Result<TransactionResponse, AppError>,
    credited: &InMemoryStore,
    credit_r: Result<TransactionResponse, AppError>,
)
    requires
        event_outcome(before, after, config, PaymentEvent::CreditRequested { client_id, amount }, r),
        credit_outcome(before, credited, TransactionRequest { client_id, amount }, credit_r),
        before.has_client(client_id),
        amount.mantissa > 0,
        before.client(client_id).balance.plus(amount) is Some,
    ensures
        r == credit_r,
        r is Ok,
        after.clients@ == credited.clients@,
        after.client(client_id).balance == r->Ok_0.balance,
{
}

/// A credit event that is computed exactly adds the amount to the balance,
/// whatever its sign: the answer is the sum written at the larger scale.
pub proof fn law_credit_event_adds_amount(
    before: &InMemoryStore,
    after: &InMemoryStore,
    config: &AppConfig,
    client_id: ClientId,
    amount: Money,
    r: Result<TransactionResponse, AppError>,
)
    requires
        event_outcome(before, after, config, PaymentEvent::CreditRequested { client_id, amount }, r),
        before.has_client(client_id),
        amount.mantissa > 0,
        before.client(client_id).balance.aligns_with(amount),
        ({
            let b = before.client(client_id).balance;
            let k = max_scale(b.scale, amount.scale);
            -MAX_MANTISSA <= b.scaled_to(k as nat) + amount.scaled_to(k as nat) <= MAX_MANTISSA
        }),
    ensures
        ({
            let b = before.client(client_id).balance;
            let k = max_scale(b.scale, amount.scale);
            let s = Money { mantissa: (b.scaled_to(k as nat) + amount.scaled_to(k as nat)) as i128, scale: k };
            &&& r == Ok::<TransactionResponse, AppError>(TransactionResponse { balance: s })
            &&& after.client(client_id).balance == s
        }),
{
}

/// Zero-padding any number gives at least `w` digits reading back as the number.
proof fn lemma_zero_padded_value(n: nat, w: nat)
    ensures
        zero_padded(n, w).len() >= w,
        all_digits(zero_padded(n, w)),
        digits_value(zero_padded(n, w)) == n,
{
    let t = decimal_text(n);
    law_decimal_text_reads_back(n);
    let p = zero_padded(n, w);
    if t.len() < w {
        let z = (w - t.len()) as nat;
        lemma_leading_zeros(z, t);
        assert(p == Seq::new(z, |i: int| '0') + t);
        assert forall|i: int| 0 <= i < p.len() implies is_ascii_digit(#[trigger] p[i]) by {
            if i >= z {
                assert(p[i] == t[i - z]);
            }
        }
    }
}

/// Outside `0..=9999` the year in a file date carries a sign, `-` for a year
/// before 0 and `+` for one after 9999, followed by at least four digits
/// that read back as the year's magnitude, as chrono's `%Y` writes it.
pub proof fn law_file_year_outside_range_is_signed(year: int)
    requires
        year < 0 || year > 9999,
    ensures
        year_text(year).len() >= 5,
        year_text(year)[0] == (if year < 0 { '-' } else { '+' }),
        all_digits(year_text(year).skip(1)),
        digits_value(year_text(year).skip(1)) == (if year < 0 { -year } else { year }),
{
    let m: nat = (if year < 0 { -year } else { year }) as nat;
    lemma_zero_padded_value(m, 4);
    let y = year_text(year);
    let sign = if year < 0 { '-' } else { '+' };
    assert(y == seq![sign] + zero_padded(m, 4));
    assert(y.skip(1) =~= zero_padded(m, 4));
}

/// A credit of a positive amount to an existing client, computed exactly,
/// adds the amount to the balance whatever its sign or scale: the answer is
/// the sum written at the larger scale, and that sum is stored.
pub proof fn law_credit_adds_amount(
    before: &InMemoryStore,
    after: &InMemoryStore,
    request: TransactionRequest,
    r: Result<TransactionResponse, AppError>,
)
    requires
        credit_outcome(before, after, request, r),
        before.has_client(request.client_id),
        request.amount.mantissa > 0,
        before.client(request.client_id).balance.aligns_with(request.amount),
        ({
            let b = before.client(request.client_id).balance;
            let k = max_scale(b.scale, request.amount.scale);
            -MAX_MANTISSA <= b.scaled_to(k as nat) + request.amount.scaled_to(k as nat) <= MAX_MANTISSA
        }),
    ensures
        ({
            let b = before.client(request.client_id).balance;
            let k = max_scale(b.scale, request.amount.scale);
            let s = Money {
                mantissa: (b.scaled_to(k as nat) + request.amount.scaled_to(k as nat)) as i128,
                scale: k,
            };
            &&& r == Ok::<TransactionResponse, AppError>(TransactionResponse { balance: s })
            &&& after.has_client(request.client_id)
            &&& after.client(request.client_id).balance == s
        }),
{
}

/// A number written in decimal, with or without a leading `+`, parses back
/// as itself whenever it is at most the type's largest value, and a number
/// above that is refused.
pub proof fn law_unsigned_text_reads_back(n: nat, max: nat)
    ensures
        parse_unsigned(decimal_text(n), max) == (if n <= max { Some(n) } else { None::<nat> }),
        parse_unsigned(seq!['+'] + decimal_text(n), max) == (if n <= max { Some(n) } else { None::<nat> }),
{
    let t = decimal_text(n);
    law_decimal_text_reads_back(n);
    assert(is_ascii_digit(t[0]));
    assert(unsigned_digits(t) == t);
    assert((seq!['+'] + t)[0] == '+');
    assert((seq!['+'] + t).skip(1) =~= t);
}

} // verus!
