use crate::types::text::{chars_of, is_char, lemma_split_len, split, texts};
use vstd::prelude::*;

verus! {

/// A decimal digit.
pub open spec fn is_digit(c: char) -> bool {
    '0' <= c <= '9'
}

/// The number that a text of decimal digits spells.
pub open spec fn decimal_value(digits: Seq<char>) -> int
    decreases digits.len(),
{
    if digits.len() == 0 {
        0
    } else {
        decimal_value(digits.drop_last()) * 10 + (digits.last() as u8 - 0x30)
    }
}

/// The digits of a text that may begin with a sign.
pub open spec fn unsigned_part(text: Seq<char>) -> Seq<char> {
    if text.len() > 0 && (text[0] == '+' || text[0] == '-') {
        text.skip(1)
    } else {
        text
    }
}

/// The number that a text spells, where it is a number that `i32` holds:
/// decimal digits, at least one, behind at most one sign.
pub open spec fn number_of(text: Seq<char>) -> Option<i32> {
    let digits = unsigned_part(text);
    let value = if text.len() > 0 && text[0] == '-' {
        -decimal_value(digits)
    } else {
        decimal_value(digits)
    };
    if digits.len() > 0 && (forall|i: int| 0 <= i < digits.len() ==> is_digit(#[trigger] digits[i]))
        && i32::MIN <= value <= i32::MAX {
        Some(value as i32)
    } else {
        None
    }
}

/// The part of a file name before its first `_`; the whole name where it
/// has none.
pub open spec fn prefix_of(name: Seq<char>) -> Seq<char> {
    split(name, is_char('_'))[0]
}

/// The rank of a migration script: the number at the head of its name.
pub open spec fn rank_of(name: Seq<char>) -> Option<i32> {
    number_of(prefix_of(name))
}

/// More digits spell a number that is at least as large.
proof fn lemma_decimal_grows(digits: Seq<char>, i: int)
    requires
        0 <= i <= digits.len(),
        forall|k: int| 0 <= k < digits.len() ==> is_digit(#[trigger] digits[k]),
    ensures
        0 <= decimal_value(digits.take(i)) <= decimal_value(digits),
    decreases digits.len() - i,
{
    if i == digits.len() {
        assert(digits.take(i) =~= digits);
        lemma_decimal_positive(digits);
    } else {
        lemma_decimal_grows(digits, i + 1);
        assert(digits.take(i + 1).drop_last() =~= digits.take(i));
        assert(is_digit(digits[i]));
        assert(digits.take(i + 1).last() == digits[i]);
        lemma_decimal_positive(digits.take(i));
    }
}

proof fn lemma_decimal_positive(digits: Seq<char>)
    requires
        forall|k: int| 0 <= k < digits.len() ==> is_digit(#[trigger] digits[k]),
    ensures
        decimal_value(digits) >= 0,
    decreases digits.len(),
{
    if digits.len() > 0 {
        assert forall|k: int| 0 <= k < digits.drop_last().len() implies is_digit(
            #[trigger] digits.drop_last()[k],
        ) by {
            assert(digits.drop_last()[k] == digits[k]);
        }
        lemma_decimal_positive(digits.drop_last());
        assert(is_digit(digits.last()));
    }
}

/// The number that a text spells, where it is a number that `i32` holds.
pub fn parse_number(text: &Vec<char>) -> (r: Option<i32>)
    ensures
        r == number_of(text@),
{
    let n = text.len();
    let negative = n > 0 && text[0] == '-';
    let start: usize = if n > 0 && (text[0] == '+' || text[0] == '-') {
        1
    } else {
        0
    };
    let ghost digits = unsigned_part(text@);
    if start == n {
        return None;
    }
    let mut value: i64 = 0;
    let mut i: usize = start;
    proof {
        assert(digits.take(0) =~= Seq::<char>::empty());
    }
    while i < n
        invariant
            start <= i <= n,
            n == text@.len(),
            digits == unsigned_part(text@),
            digits.len() == n - start,
            forall|k: int| 0 <= k < digits.len() ==> digits[k] == text@[start + k],
            forall|k: int| 0 <= k < i - start ==> is_digit(#[trigger] digits[k]),
            value == decimal_value(digits.take(i - start)),
            0 <= value <= 0x8000_0000,
        decreases n - i,
    {
        let c = text[i];
        if !('0' <= c && c <= '9') {
            proof {
                assert(digits[i - start] == c);
                assert(!is_digit(digits[i - start]));
            }
            return None;
        }
        let digit: i64 = (c as u8 - 0x30) as i64;
        proof {
            assert(digits.take(i + 1 - start).drop_last() =~= digits.take(i - start));
            assert(digits.take(i + 1 - start).last() == c);
        }
        let next = value * 10 + digit;
        if next > 0x8000_0000 {
            proof {
                if forall|k: int| 0 <= k < digits.len() ==> is_digit(#[trigger] digits[k]) {
                    lemma_decimal_grows(digits, i + 1 - start);
                }
            }
            return None;
        }
        value = next;
        i = i + 1;
    }
    proof {
        assert(digits.take(n - start) =~= digits);
    }
    if negative {
        Some((-value) as i32)
    } else if value > 0x7FFF_FFFF {
        None
    } else {
        Some(value as i32)
    }
}

/// The rank of a migration script: the number at the head of its name.
pub fn migration_rank(file_name: &str) -> (r: Option<i32>)
    ensures
        r == rank_of(file_name@),
{
    let all = chars_of(file_name);
    let n = all.len();
    let mut prefix: Vec<char> = Vec::new();
    let mut i: usize = 0;
    proof {
        lemma_split_len(file_name@, is_char('_'));
    }
    while i < n && all[i] != '_'
        invariant
            i <= n,
            n == all@.len(),
            all@ == file_name@,
            prefix@ == all@.take(i as int),
            forall|k: int| 0 <= k < i ==> all@[k] != '_',
        decreases n - i,
    {
        proof {
            assert(all@.take(i + 1) =~= all@.take(i as int).push(all@[i as int]));
        }
        prefix.push(all[i]);
        i = i + 1;
    }
    proof {
        lemma_prefix(file_name@, i as int);
    }
    parse_number(&prefix)
}

/// The first part of a name is what stands before its first separator.
proof fn lemma_prefix(name: Seq<char>, i: int)
    requires
        0 <= i <= name.len(),
        forall|k: int| 0 <= k < i ==> name[k] != '_',
        i < name.len() ==> name[i] == '_',
    ensures
        split(name, is_char('_')).len() >= 1,
        prefix_of(name) == name.take(i),
    decreases name.len(),
{
    lemma_split_len(name, is_char('_'));
    if name.len() == 0 {
        assert(name.take(i) =~= Seq::<char>::empty());
    } else {
        let front = name.drop_last();
        lemma_split_len(front, is_char('_'));
        if i == name.len() {
            lemma_prefix(front, i - 1);
            let parts = split(front, is_char('_'));
            lemma_one_part(front);
            assert(parts.len() == 1);
            assert(parts.last() == parts[0]);
            assert(front.take(i - 1).push(name.last()) =~= name.take(i));
        } else {
            lemma_prefix(front, i);
            assert(front.take(i) =~= name.take(i));
            let parts = split(front, is_char('_'));
            if is_char('_')(name.last()) {
                assert(parts.push(Seq::empty())[0] == parts[0]);
            } else {
                if parts.len() == 1 {
                    lemma_parts_count(front, i);
                }
                assert(parts.drop_last().push(parts.last().push(name.last()))[0] == parts[0]);
            }
        }
    }
}

/// A text without a separator is one part.
proof fn lemma_one_part(text: Seq<char>)
    requires
        forall|k: int| 0 <= k < text.len() ==> text[k] != '_',
    ensures
        split(text, is_char('_')).len() == 1,
    decreases text.len(),
{
    if text.len() > 0 {
        assert(text.last() == text[text.len() - 1]);
        lemma_one_part(text.drop_last());
    }
}

/// A text with a separator has more than one part.
proof fn lemma_parts_count(text: Seq<char>, i: int)
    requires
        0 <= i < text.len(),
        text[i] == '_',
    ensures
        split(text, is_char('_')).len() >= 2,
    decreases text.len(),
{
    lemma_split_len(text.drop_last(), is_char('_'));
    if i < text.len() - 1 {
        lemma_parts_count(text.drop_last(), i);
    }
}

/// How one thing stands to another in an order.
#[derive(Clone, Copy, Debug, PartialEq, Eq, Structural)]
pub enum Order {
    Less,
    Equal,
    Greater,
}

/// How two byte strings stand to each other in the order of a dictionary.
pub open spec fn dictionary_order(a: Seq<u8>, b: Seq<u8>) -> Order
    decreases a.len(),
{
    if a.len() == 0 && b.len() == 0 {
        Order::Equal
    } else if a.len() == 0 {
        Order::Less
    } else if b.len() == 0 {
        Order::Greater
    } else if a[0] < b[0] {
        Order::Less
    } else if a[0] > b[0] {
        Order::Greater
    } else {
        dictionary_order(a.drop_first(), b.drop_first())
    }
}

/// How two numbers stand to each other.
pub open spec fn number_order(a: i32, b: i32) -> Order {
    if a < b {
        Order::Less
    } else if a > b {
        Order::Greater
    } else {
        Order::Equal
    }
}

/// The order in which two migration scripts run: by their ranks where both
/// have one, else by their names.
pub open spec fn script_order(a: Seq<char>, b: Seq<char>) -> Order {
    match (rank_of(a), rank_of(b)) {
        (Some(x), Some(y)) => number_order(x, y),
        _ => dictionary_order(vstd::utf8::encode_utf8(a), vstd::utf8::encode_utf8(b)),
    }
}

/// How two byte strings stand to each other in the order of a dictionary.
pub fn compare_bytes(a: &[u8], b: &[u8]) -> (r: Order)
    ensures
        r == dictionary_order(a@, b@),
{
    let n = a.len();
    let m = b.len();
    let mut i: usize = 0;
    proof {
        assert(a@.skip(0) =~= a@);
        assert(b@.skip(0) =~= b@);
    }
    while i < n && i < m
        invariant
            i <= n,
            i <= m,
            n == a@.len(),
            m == b@.len(),
            dictionary_order(a@, b@) == dictionary_order(a@.skip(i as int), b@.skip(i as int)),
        decreases n - i,
    {
        proof {
            assert(a@.skip(i as int)[0] == a@[i as int]);
            assert(b@.skip(i as int)[0] == b@[i as int]);
            assert(a@.skip(i as int).drop_first() =~= a@.skip(i + 1));
            assert(b@.skip(i as int).drop_first() =~= b@.skip(i + 1));
        }
        if a[i] < b[i] {
            return Order::Less;
        }
        if a[i] > b[i] {
            return Order::Greater;
        }
        i = i + 1;
    }
    if n == m {
        Order::Equal
    } else if i == n {
        Order::Less
    } else {
        Order::Greater
    }
}

/// The order in which two migration scripts run.
pub fn migration_order(a: &str, b: &str) -> (r: Order)
    ensures
        r == script_order(a@, b@),
{
    match (migration_rank(a), migration_rank(b)) {
        (Some(x), Some(y)) => {
            if x < y {
                Order::Less
            } else if x > y {
                Order::Greater
            } else {
                Order::Equal
            }
        },
        _ => compare_bytes(a.as_bytes(), b.as_bytes()),
    }
}

/// Turning an order round: what comes before comes after.
pub open spec fn turned(order: Order) -> Order {
    match order {
        Order::Less => Order::Greater,
        Order::Equal => Order::Equal,
        Order::Greater => Order::Less,
    }
}

/// The order of a dictionary, read the other way round, is the order
/// turned round.
pub proof fn lemma_dictionary_turns(a: Seq<u8>, b: Seq<u8>)
    ensures
        dictionary_order(b, a) == turned(dictionary_order(a, b)),
    decreases a.len(),
{
    if a.len() > 0 && b.len() > 0 && a[0] == b[0] {
        lemma_dictionary_turns(a.drop_first(), b.drop_first());
    }
}

/// The order of two scripts, read the other way round, is the order
/// turned round.
pub proof fn lemma_script_order_turns(a: Seq<char>, b: Seq<char>)
    ensures
        script_order(b, a) == turned(script_order(a, b)),
{
    lemma_dictionary_turns(vstd::utf8::encode_utf8(a), vstd::utf8::encode_utf8(b));
}

/// A script: a file name with a stem and the extension `sql`.
pub open spec fn is_script(name: Seq<char>) -> bool {
    &&& name.len() > 4
    &&& name[name.len() - 4] == '.'
    &&& name[name.len() - 3] == 's'
    &&& name[name.len() - 2] == 'q'
    &&& name[name.len() - 1] == 'l'
}

pub open spec fn script_names() -> spec_fn(Seq<char>) -> bool {
    |name: Seq<char>| is_script(name)
}

/// No name comes behind a name that it runs before.
pub open spec fn in_order(names: Seq<Seq<char>>) -> bool {
    forall|i: int|
        0 <= i < names.len() - 1 ==> #[trigger] script_order(names[i], names[i + 1])
            != Order::Greater
}

/// Whether the file name is that of a script.
pub fn is_script_name(name: &str) -> (r: bool)
    ensures
        r == is_script(name@),
{
    let c = chars_of(name);
    let n = c.len();
    n > 4 && c[n - 4] == '.' && c[n - 3] == 's' && c[n - 2] == 'q' && c[n - 1] == 'l'
}

/// A name put between a name that does not run after it and a name that
/// it does not run after leaves the list in order.
pub proof fn lemma_insert_in_order(names: Seq<Seq<char>>, p: int, name: Seq<char>)
    requires
        in_order(names),
        0 <= p <= names.len(),
        p > 0 ==> script_order(names[p - 1], name) != Order::Greater,
        p < names.len() ==> script_order(name, names[p]) != Order::Greater,
    ensures
        in_order(names.insert(p, name)),
{
    let longer = names.insert(p, name);
    names.insert_ensures(p, name);
    assert forall|i: int| 0 <= i < longer.len() - 1 implies #[trigger] script_order(
        longer[i],
        longer[i + 1],
    ) != Order::Greater by {
        if i + 1 < p {
            assert(longer[i] == names[i] && longer[i + 1] == names[i + 1]);
            assert(script_order(names[i], names[i + 1]) != Order::Greater);
        } else if i + 1 == p {
            assert(longer[i] == names[i] && longer[i + 1] == name);
        } else if i == p {
            assert(longer[i] == name && longer[i + 1] == names[i]);
        } else {
            assert(longer[i] == names[i - 1] && longer[i + 1] == names[i]);
            assert(script_order(names[i - 1], names[i - 1 + 1]) != Order::Greater);
        }
    }
}

/// Putting a value into a list adds it to what the list holds, and adds
/// nothing else.
pub proof fn lemma_insert_to_multiset<A>(list: Seq<A>, p: int, value: A)
    requires
        0 <= p <= list.len(),
    ensures
        list.insert(p, value).to_multiset() == list.to_multiset().insert(value),
{
    let longer = list.insert(p, value);
    list.insert_ensures(p, value);
    assert(longer.remove(p) =~= list);
    vstd::seq_lib::to_multiset_remove(longer, p);
    longer.to_multiset_ensures();
    assert(longer.contains(value)) by {
        assert(longer[p] == value);
    }
    assert(longer.to_multiset() =~= list.to_multiset().insert(value));
}

/// No names hold no scripts.
pub proof fn lemma_no_names()
    ensures
        Seq::<Seq<char>>::empty().filter(script_names()) == Seq::<Seq<char>>::empty(),
{
    reveal(Seq::filter);
}

/// What one more file name does to the scripts among the names.
pub proof fn lemma_scripts_of_one_more(before: Seq<Seq<char>>, name: Seq<char>)
    ensures
        before.push(name).filter(script_names()) == if is_script(name) {
            before.filter(script_names()).push(name)
        } else {
            before.filter(script_names())
        },
{
    reveal(Seq::filter);
    assert(before.push(name).drop_last() =~= before);
}

/// One more script, put in at any place, keeps the plan holding the
/// scripts among the names, each as often as it is named.
pub proof fn lemma_plan_holds_scripts(
    before: Seq<Seq<char>>,
    planned: Seq<Seq<char>>,
    name: Seq<char>,
    p: int,
)
    requires
        planned.to_multiset() == before.filter(script_names()).to_multiset(),
        0 <= p <= planned.len(),
        is_script(name),
    ensures
        planned.insert(p, name).to_multiset() == before.push(name).filter(
            script_names(),
        ).to_multiset(),
{
    lemma_scripts_of_one_more(before, name);
    lemma_insert_to_multiset(planned, p, name);
    vstd::seq_lib::to_multiset_build(before.filter(script_names()), name);
}

/// Where a script goes in a list that is in order: before the first
/// script that runs after it.
pub fn place_of_script(sorted: &Vec<String>, name: &str) -> (p: usize)
    ensures
        p <= sorted@.len(),
        forall|j: int| 0 <= j < p ==> script_order(texts(sorted@)[j], name@) != Order::Greater,
        p < sorted@.len() ==> script_order(texts(sorted@)[p as int], name@) == Order::Greater,
{
    let n = sorted.len();
    let mut p: usize = 0;
    while p < n
        invariant
            p <= n,
            n == sorted@.len(),
            forall|j: int| 0 <= j < p ==> script_order(texts(sorted@)[j], name@) != Order::Greater,
        decreases n - p,
    {
        proof {
            assert(texts(sorted@)[p as int] == sorted@[p as int]@);
        }
        match migration_order(sorted[p].as_str(), name) {
            Order::Greater => {
                return p;
            },
            _ => {},
        }
        p = p + 1;
    }
    p
}

/// The scripts among the file names of a directory, in the order in which
/// they run: by the number at the head of the name where two names have
/// one, else by the names. Names that are no scripts are left out; scripts
/// that run at the same place stay in the order in which they came.
pub fn migration_plan(names: Vec<String>) -> (r: Vec<String>)
    ensures
        texts(r@).to_multiset() == texts(names@).filter(script_names()).to_multiset(),
        in_order(texts(r@)),
        forall|i: int|
            0 <= i < r@.len() - 1 ==> #[trigger] script_order(r@[i]@, r@[i + 1]@)
                != Order::Greater,
{
    let ghost all = names@;
    let total = names.len();
    let mut out: Vec<String> = Vec::new();
    let mut pos: usize = 0;
    proof {
        lemma_no_names();
        assert(texts(all.take(0)) =~= Seq::<Seq<char>>::empty());
        assert(texts(out@) =~= Seq::<Seq<char>>::empty());
    }
    for name in it: names
        invariant
            it.seq() == all,
            all.len() == total,
            pos == it.index(),
            pos <= total,
            texts(out@).to_multiset() == texts(all.take(pos as int)).filter(
                script_names(),
            ).to_multiset(),
            in_order(texts(out@)),
    {
        let ghost before = texts(all.take(pos as int));
        proof {
            assert(pos < total);
            assert(texts(all.take(pos + 1)) =~= before.push(name@));
            lemma_scripts_of_one_more(before, name@);
        }
        if is_script_name(name.as_str()) {
            let p = place_of_script(&out, name.as_str());
            proof {
                let planned = texts(out@);
                assert(texts(out@.insert(p as int, name)) =~= planned.insert(p as int, name@));
                lemma_plan_holds_scripts(before, planned, name@, p as int);
                if p < planned.len() {
                    lemma_script_order_turns(planned[p as int], name@);
                }
                lemma_insert_in_order(planned, p as int, name@);
            }
            out.insert(p, name);
        }
        pos = pos + 1;
    }
    proof {
        assert(all.take(total as int) =~= all);
        assert forall|i: int| 0 <= i < out@.len() - 1 implies #[trigger] script_order(
            out@[i]@,
            out@[i + 1]@,
        ) != Order::Greater by {
            assert(texts(out@)[i] == out@[i]@);
            assert(texts(out@)[i + 1] == out@[i + 1]@);
            assert(script_order(texts(out@)[i], texts(out@)[i + 1]) != Order::Greater);
        }
    }
    out
}

} // verus!
