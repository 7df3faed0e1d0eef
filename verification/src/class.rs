//! Item collections: per-subscriber, per-category buckets of items, each
//! item persisted as one hash field whose value encodes the donated flag
//! and the stock count as `"<donated>:<stock>"`.
//!
//! The encoding round-trips exactly; a malformed stored value is a hard
//! decode failure, never a silent default.

use crate::errors::ErrorKind;
use crate::errors::ItemError;
use crate::store::Store;
use vstd::arithmetic::div_mod::lemma_fundamental_div_mod;
use vstd::arithmetic::div_mod::lemma_mod_bound;
use vstd::prelude::*;
use vstd::string::*;

verus! {

/// An item of a category: the category name, the item id, whether it was
/// donated, and the stock count.
#[derive(Clone, Debug)]
pub struct Item {
    pub class: String,
    pub id: String,
    pub donated: bool,
    pub stock: u32,
}

/// A category of items.
#[derive(Clone, Debug)]
pub struct Class(pub String);

/// The character for one decimal digit.
pub open spec fn dec_digit(d: int) -> char
    recommends
        0 <= d <= 9,
{
    if d == 0 {
        '0'
    } else if d == 1 {
        '1'
    } else if d == 2 {
        '2'
    } else if d == 3 {
        '3'
    } else if d == 4 {
        '4'
    } else if d == 5 {
        '5'
    } else if d == 6 {
        '6'
    } else if d == 7 {
        '7'
    } else if d == 8 {
        '8'
    } else {
        '9'
    }
}

/// The value of a decimal digit character, or -1 for any other character.
pub open spec fn digit_val(c: char) -> int {
    if c == '0' {
        0
    } else if c == '1' {
        1
    } else if c == '2' {
        2
    } else if c == '3' {
        3
    } else if c == '4' {
        4
    } else if c == '5' {
        5
    } else if c == '6' {
        6
    } else if c == '7' {
        7
    } else if c == '8' {
        8
    } else if c == '9' {
        9
    } else {
        -1
    }
}

/// The canonical decimal rendering of a non-negative number: no sign, no
/// leading zero except for the number zero itself.
pub open spec fn dec_chars(n: int) -> Seq<char>
    recommends
        n >= 0,
    decreases n,
{
    if n < 10 {
        seq![dec_digit(n)]
    } else {
        dec_chars(n / 10).push(dec_digit(n % 10))
    }
}

/// A non-empty sequence of decimal digit characters.
pub open spec fn is_digit_seq(s: Seq<char>) -> bool {
    s.len() > 0 && forall|i: int| 0 <= i < s.len() ==> digit_val(#[trigger] s[i]) >= 0
}

/// The number a digit sequence denotes.
pub open spec fn dec_val(s: Seq<char>) -> int
    decreases s.len(),
{
    if s.len() == 0 {
        0
    } else {
        dec_val(s.drop_last()) * 10 + digit_val(s.last())
    }
}

/// The rendering of a boolean.
pub open spec fn bool_chars(b: bool) -> Seq<char> {
    if b {
        seq!['t', 'r', 'u', 'e']
    } else {
        seq!['f', 'a', 'l', 's', 'e']
    }
}

/// The persisted encoding of an item's status: `"<donated>:<stock>"`.
pub open spec fn spec_encode_status(donated: bool, stock: u32) -> Seq<char> {
    bool_chars(donated) + seq![':'] + dec_chars(stock as int)
}

/// Index of the first `':'`, or -1 when there is none.
pub open spec fn first_colon(s: Seq<char>) -> int
    decreases s.len(),
{
    if s.len() == 0 {
        -1
    } else if s[0] == ':' {
        0
    } else if first_colon(s.drop_first()) < 0 {
        -1
    } else {
        first_colon(s.drop_first()) + 1
    }
}

/// Decoding of a persisted status value: the part before the first `':'`
/// must render a boolean, the part after it must be a digit sequence whose
/// value fits; anything else is malformed.
pub open spec fn spec_decode_status(v: Seq<char>) -> Option<(bool, u32)> {
    if first_colon(v) < 0 {
        None
    } else {
        let b = v.take(first_colon(v));
        let digits = v.skip(first_colon(v) + 1);
        if b != bool_chars(true) && b != bool_chars(false) {
            None
        } else if !is_digit_seq(digits) {
            None
        } else if dec_val(digits) > u32::MAX as int {
            None
        } else {
            Some((b == bool_chars(true), dec_val(digits) as u32))
        }
    }
}

/// `first_colon` finds exactly the first colon: it points at a colon with
/// none before it, or reports that the sequence holds none.
pub proof fn lemma_first_colon_char(s: Seq<char>)
    ensures
        first_colon(s) >= 0 ==> first_colon(s) < s.len() && s[first_colon(s)] == ':' && forall|
            j: int,
        | 0 <= j < first_colon(s) ==> s[j] != ':',
        first_colon(s) < 0 ==> forall|j: int| 0 <= j < s.len() ==> s[j] != ':',
    decreases s.len(),
{
    if s.len() == 0 {
    } else if s[0] == ':' {
    } else {
        lemma_first_colon_char(s.drop_first());
        assert forall|j: int| 0 <= j < s.len() && (first_colon(s) < 0 || j < first_colon(s))
            implies s[j] != ':' by {
            if j > 0 {
                assert(s.drop_first()[j - 1] == s[j]);
            }
        }
    }
}

/// In `a + ":" + c`, when `a` holds no colon the first colon is the
/// separator itself, at index `a.len()`.
pub proof fn lemma_first_colon_concat(a: Seq<char>, c: Seq<char>)
    requires
        forall|j: int| 0 <= j < a.len() ==> a[j] != ':',
    ensures
        first_colon(a + seq![':'] + c) == a.len(),
    decreases a.len(),
{
    let s = a + seq![':'] + c;
    if a.len() == 0 {
        assert(s[0] == ':');
    } else {
        assert(s[0] == a[0]);
        assert(s.drop_first() =~= a.drop_first() + seq![':'] + c);
        assert forall|j: int| 0 <= j < a.drop_first().len() implies a.drop_first()[j] != ':' by {
            assert(a.drop_first()[j] == a[j + 1]);
        }
        lemma_first_colon_concat(a.drop_first(), c);
    }
}

/// The decimal rendering of a non-negative number is a digit sequence.
pub proof fn lemma_dec_chars_digits(n: int)
    requires
        n >= 0,
    ensures
        is_digit_seq(dec_chars(n)),
    decreases n,
{
    if n >= 10 {
        lemma_dec_chars_digits(n / 10);
        assert forall|i: int| 0 <= i < dec_chars(n).len() implies digit_val(
            #[trigger] dec_chars(n)[i],
        ) >= 0 by {
            if i < dec_chars(n / 10).len() {
                assert(dec_chars(n)[i] == dec_chars(n / 10)[i]);
            }
        }
    }
}

/// Rendering then evaluating a non-negative number gives it back.
pub proof fn lemma_dec_val_of_dec_chars(n: int)
    requires
        n >= 0,
    ensures
        dec_val(dec_chars(n)) == n,
    decreases n,
{
    if n < 10 {
        assert(dec_chars(n) == seq![dec_digit(n)]);
        assert(dec_chars(n).len() == 1);
        assert(dec_chars(n).drop_last() =~= Seq::<char>::empty());
        assert(dec_val(Seq::<char>::empty()) == 0);
        assert(dec_chars(n).last() == dec_digit(n));
        assert(digit_val(dec_digit(n)) == n);
        assert(dec_val(dec_chars(n)) == dec_val(dec_chars(n).drop_last()) * 10 + digit_val(
            dec_chars(n).last(),
        ));
    } else {
        lemma_dec_val_of_dec_chars(n / 10);
        assert(dec_chars(n).drop_last() =~= dec_chars(n / 10));
        lemma_fundamental_div_mod(n, 10);
        lemma_mod_bound(n, 10);
        assert(dec_chars(n).last() == dec_digit(n % 10));
        assert(digit_val(dec_digit(n % 10)) == n % 10);
        assert(dec_val(dec_chars(n)) == dec_val(dec_chars(n).drop_last()) * 10 + digit_val(
            dec_chars(n).last(),
        ));
    }
}

/// A digit sequence evaluates to a non-negative number.
pub proof fn lemma_dec_val_nonneg(s: Seq<char>)
    requires
        forall|i: int| 0 <= i < s.len() ==> digit_val(#[trigger] s[i]) >= 0,
    ensures
        dec_val(s) >= 0,
    decreases s.len(),
{
    if s.len() > 0 {
        assert forall|i: int| 0 <= i < s.drop_last().len() implies digit_val(
            #[trigger] s.drop_last()[i],
        ) >= 0 by {
            assert(s.drop_last()[i] == s[i]);
        }
        lemma_dec_val_nonneg(s.drop_last());
    }
}

/// Extending a digit sequence to the right never decreases its value.
pub proof fn lemma_dec_val_prefix(s: Seq<char>, k: int)
    requires
        forall|i: int| 0 <= i < s.len() ==> digit_val(#[trigger] s[i]) >= 0,
        0 <= k <= s.len(),
    ensures
        dec_val(s) >= dec_val(s.take(k)),
    decreases s.len(),
{
    if k == s.len() {
        assert(s.take(k) =~= s);
    } else {
        assert forall|i: int| 0 <= i < s.drop_last().len() implies digit_val(
            #[trigger] s.drop_last()[i],
        ) >= 0 by {
            assert(s.drop_last()[i] == s[i]);
        }
        lemma_dec_val_prefix(s.drop_last(), k);
        lemma_dec_val_nonneg(s.drop_last());
        assert(s.take(k) =~= s.drop_last().take(k));
    }
}

/// The encoding round-trips: decoding what was encoded for any flag and
/// stock count yields exactly that flag and count.
pub proof fn lemma_status_round_trip(donated: bool, stock: u32)
    ensures
        spec_decode_status(spec_encode_status(donated, stock)) == Some((donated, stock)),
{
    let b = bool_chars(donated);
    let d = dec_chars(stock as int);
    let v = spec_encode_status(donated, stock);
    assert(forall|j: int| 0 <= j < b.len() ==> b[j] != ':');
    lemma_first_colon_concat(b, d);
    assert(v.take(b.len() as int) =~= b);
    assert(v.skip(b.len() as int + 1) =~= d);
    lemma_dec_chars_digits(stock as int);
    lemma_dec_val_of_dec_chars(stock as int);
    assert(bool_chars(true).len() != bool_chars(false).len());
}

/// One decimal digit as a string.
fn digit_str(d: u32) -> (s: String)
    requires
        d < 10,
    ensures
        s@ == seq![dec_digit(d as int)],
{
    let s = if d == 0 {
        String::from_str("0")
    } else if d == 1 {
        String::from_str("1")
    } else if d == 2 {
        String::from_str("2")
    } else if d == 3 {
        String::from_str("3")
    } else if d == 4 {
        String::from_str("4")
    } else if d == 5 {
        String::from_str("5")
    } else if d == 6 {
        String::from_str("6")
    } else if d == 7 {
        String::from_str("7")
    } else if d == 8 {
        String::from_str("8")
    } else {
        String::from_str("9")
    };
    proof {
        reveal_strlit("0");
        reveal_strlit("1");
        reveal_strlit("2");
        reveal_strlit("3");
        reveal_strlit("4");
        reveal_strlit("5");
        reveal_strlit("6");
        reveal_strlit("7");
        reveal_strlit("8");
        reveal_strlit("9");
        assert(s@ =~= seq![dec_digit(d as int)]);
    }
    s
}

/// The decimal rendering of a number.
fn dec_string(n: u32) -> (s: String)
    ensures
        s@ == dec_chars(n as int),
    decreases n,
{
    if n < 10 {
        digit_str(n)
    } else {
        let mut s = dec_string(n / 10);
        let d = digit_str(n % 10);
        s.append(d.as_str());
        proof {
            assert(s@ =~= dec_chars((n / 10) as int).push(dec_digit((n % 10) as int)));
        }
        s
    }
}

/// Encodes an item's status as `"<donated>:<stock>"`.
pub fn encode_status(donated: bool, stock: u32) -> (s: String)
    ensures
        s@ == spec_encode_status(donated, stock),
{
    let b = if donated {
        String::from_str("true")
    } else {
        String::from_str("false")
    };
    proof {
        reveal_strlit("true");
        reveal_strlit("false");
        assert(b@ =~= bool_chars(donated));
    }
    let r = b.concat(":").concat(dec_string(stock).as_str());
    proof {
        reveal_strlit(":");
        assert(":"@ =~= seq![':']);
        assert(r@ =~= spec_encode_status(donated, stock));
    }
    r
}

/// The value of a digit character, or `None` for any other character.
fn digit_of(c: char) -> (d: Option<u32>)
    ensures
        d is Some <==> digit_val(c) >= 0,
        d is Some ==> d->Some_0 as int == digit_val(c) && d->Some_0 < 10,
{
    match c {
        '0' => Some(0),
        '1' => Some(1),
        '2' => Some(2),
        '3' => Some(3),
        '4' => Some(4),
        '5' => Some(5),
        '6' => Some(6),
        '7' => Some(7),
        '8' => Some(8),
        '9' => Some(9),
        _ => None,
    }
}

/// Index of the first `':'` in `s`, or `None` when there is none.
fn find_colon(s: &String) -> (r: Option<usize>)
    ensures
        r is Some ==> r->Some_0 as int == first_colon(s@),
        r is None ==> first_colon(s@) < 0,
{
    let n = s.as_str().unicode_len();
    let mut i: usize = 0;
    while i < n
        invariant
            i <= n,
            n == s@.len(),
            forall|j: int| 0 <= j < i ==> s@[j] != ':',
        decreases n - i,
    {
        if s.as_str().get_char(i) == ':' {
            proof {
                lemma_first_colon_char(s@);
                assert(first_colon(s@) == i as int);
            }
            return Some(i);
        }
        i = i + 1;
    }
    proof {
        lemma_first_colon_char(s@);
    }
    None
}

/// Decodes a persisted status value; `None` exactly when the value is
/// malformed: no colon, no boolean before the first colon, or anything but
/// a fitting digit sequence after it.
#[verifier::loop_isolation(false)]
pub fn decode_status(v: &String) -> (r: Option<(bool, u32)>)
    ensures
        r == spec_decode_status(v@),
{
    let n = v.as_str().unicode_len();
    let i = match find_colon(v) {
        Some(i) => i,
        None => {
            return None;
        },
    };
    proof {
        lemma_first_colon_char(v@);
    }
    let b = v.as_str();
    let donated = if i == 4 && b.get_char(0) == 't' && b.get_char(1) == 'r' && b.get_char(2) == 'u'
        && b.get_char(3) == 'e' {
        proof {
            assert(v@.take(4) =~= bool_chars(true));
        }
        true
    } else if i == 5 && b.get_char(0) == 'f' && b.get_char(1) == 'a' && b.get_char(2) == 'l'
        && b.get_char(3) == 's' && b.get_char(4) == 'e' {
        proof {
            assert(v@.take(5) =~= bool_chars(false));
        }
        false
    } else {
        proof {
            assert(v@.take(first_colon(v@)) != bool_chars(true) && v@.take(first_colon(v@))
                != bool_chars(false)) by {
                assert(v@.take(first_colon(v@)).len() == first_colon(v@));
                assert(bool_chars(true).len() == 4);
                assert(bool_chars(false).len() == 5);
                if v@.take(first_colon(v@)) == bool_chars(true) {
                    assert(first_colon(v@) == 4);
                    assert(v@.take(4)[0] == 't' && v@.take(4)[1] == 'r' && v@.take(4)[2] == 'u'
                        && v@.take(4)[3] == 'e');
                    assert(v@[0] == 't' && v@[1] == 'r' && v@[2] == 'u' && v@[3] == 'e');
                }
                if v@.take(first_colon(v@)) == bool_chars(false) {
                    assert(first_colon(v@) == 5);
                    assert(v@.take(5)[0] == 'f' && v@.take(5)[1] == 'a' && v@.take(5)[2] == 'l'
                        && v@.take(5)[3] == 's' && v@.take(5)[4] == 'e');
                    assert(v@[0] == 'f' && v@[1] == 'a' && v@[2] == 'l' && v@[3] == 's' && v@[4]
                        == 'e');
                }
            }
        }
        return None;
    };
    let ghost digits = v@.skip(i as int + 1);
    if i + 1 >= n {
        proof {
            assert(digits.len() == 0);
        }
        return None;
    }
    let mut acc: u64 = 0;
    let mut j: usize = i + 1;
    while j < n
        invariant
            i + 1 <= j <= n,
            n == v@.len(),
            digits == v@.skip(i as int + 1),
            forall|t: int| 0 <= t < j - i - 1 ==> digit_val(#[trigger] digits[t]) >= 0,
            acc == dec_val(digits.take(j - i - 1)),
            acc <= u32::MAX,
        decreases n - j,
    {
        let c = v.as_str().get_char(j);
        let d = match digit_of(c) {
            Some(d) => d,
            None => {
                proof {
                    assert(digits[j - i - 1] == v@[j as int]);
                    assert(digit_val(digits[j - i - 1]) < 0);
                    assert(!is_digit_seq(digits));
                }
                return None;
            },
        };
        proof {
            assert(digits.take(j - i).drop_last() =~= digits.take(j - i - 1));
            assert(digits.take(j - i).last() == v@[j as int]);
            assert(dec_val(digits.take(j - i)) == dec_val(digits.take(j - i).drop_last()) * 10
                + digit_val(digits.take(j - i).last()));
            assert(dec_val(digits.take(j - i)) == dec_val(digits.take(j - i - 1)) * 10
                + digit_val(v@[j as int]));
        }
        acc = acc * 10 + d as u64;
        if acc > u32::MAX as u64 {
            proof {
                if is_digit_seq(digits) {
                    lemma_dec_val_prefix(digits, j - i);
                    assert(dec_val(digits) > u32::MAX as int);
                }
            }
            return None;
        }
        j = j + 1;
    }
    proof {
        assert(digits.take(j - i - 1) =~= digits);
        assert(is_digit_seq(digits));
        assert(dec_val(digits) <= u32::MAX as int);
    }
    Some((donated, acc as u32))
}

/// Key of the item hash of one subscriber's category.
pub open spec fn class_key(subscriber_id: Seq<char>, class: Seq<char>) -> Seq<char> {
    subscriber_id + ":"@ + class
}

/// Builds the item-hash key `"<subscriber_id>:<class>"`.
fn class_key_exec(subscriber_id: &String, class: &String) -> (k: String)
    ensures
        k@ == class_key(subscriber_id@, class@),
{
    subscriber_id.clone().concat(":").concat(class.as_str())
}

/// The effect of writing a list of items into a category hash: each item
/// is stored encoded under its id, later entries for the same id winning;
/// fields absent from the list are left untouched (a merge, not a
/// replace-all).
pub open spec fn merge_items(
    h: Map<Seq<char>, Seq<char>>,
    items: Seq<Item>,
) -> Map<Seq<char>, Seq<char>>
    decreases items.len(),
{
    if items.len() == 0 {
        h
    } else {
        merge_items(h, items.drop_last()).insert(
            items.last().id@,
            spec_encode_status(items.last().donated, items.last().stock),
        )
    }
}

/// Item round-trip: after a write, the last item written for an id is read
/// back from the merged hash and decodes to exactly the donated flag and
/// stock count that were written.
pub proof fn lemma_item_round_trip(h: Map<Seq<char>, Seq<char>>, items: Seq<Item>, i: int)
    requires
        0 <= i < items.len(),
        forall|j: int| i < j < items.len() ==> (#[trigger] items[j]).id@ != items[i].id@,
    ensures
        merge_items(h, items).contains_key(items[i].id@),
        spec_decode_status(merge_items(h, items)[items[i].id@]) == Some(
            (items[i].donated, items[i].stock),
        ),
    decreases items.len(),
{
    if i == items.len() - 1 {
        lemma_status_round_trip(items[i].donated, items[i].stock);
    } else {
        assert forall|j: int| i < j < items.drop_last().len() implies (#[trigger] items.drop_last()[
            j
        ]).id@ != items.drop_last()[i].id@ by {
            assert(items.drop_last()[j] == items[j]);
        }
        lemma_item_round_trip(h, items.drop_last(), i);
        assert(items.last().id@ != items[i].id@);
        assert(items.drop_last()[i] == items[i]);
    }
}

impl Class {
    /// Reads all items of this category for `subscriber_id`: every stored
    /// field decoded, in unspecified order; an unknown category reads as
    /// empty. Any field whose value fails to decode aborts the whole read
    /// with `ItemsNotFound`.
    #[verifier::loop_isolation(false)]
    pub fn get_class(&mut self, store: &Store, subscriber_id: &String) -> (r: Result<
        Vec<Item>,
        ItemError,
    >)
        requires
            store.wf(),
        ensures
            *final(self) == *old(self),
            r is Ok <==> forall|k: Seq<char>|
                store.hash_at(class_key(subscriber_id@, old(self).0@)).contains_key(k)
                    ==> spec_decode_status(
                    #[trigger] store.hash_at(class_key(subscriber_id@, old(self).0@))[k],
                ) is Some,
            r is Err ==> r->Err_0.kind == ErrorKind::ItemsNotFound,
            r is Ok ==> forall|i: int|
                0 <= i < r->Ok_0@.len() ==> (#[trigger] r->Ok_0@[i]).class@ == old(self).0@
                    && store.hash_at(class_key(subscriber_id@, old(self).0@)).contains_key(
                    r->Ok_0@[i].id@,
                ) && spec_decode_status(
                    store.hash_at(class_key(subscriber_id@, old(self).0@))[r->Ok_0@[i].id@],
                ) == Some((r->Ok_0@[i].donated, r->Ok_0@[i].stock)),
            r is Ok ==> forall|i: int, j: int|
                0 <= i < r->Ok_0@.len() && 0 <= j < r->Ok_0@.len() && i != j
                    ==> (#[trigger] r->Ok_0@[i]).id@ != (#[trigger] r->Ok_0@[j]).id@,
            r is Ok ==> forall|k: Seq<char>|
                store.hash_at(class_key(subscriber_id@, old(self).0@)).contains_key(k)
                    ==> exists|i: int|
                    0 <= i < r->Ok_0@.len() && (#[trigger] r->Ok_0@[i]).id@ == k,
    {
        let key = class_key_exec(subscriber_id, &self.0);
        let pairs = store.hashes.hgetall(&key);
        let mut items: Vec<Item> = Vec::new();
        let mut i: usize = 0;
        while i < pairs.len()
            invariant
                i <= pairs@.len(),
                items@.len() == i,
                forall|j: int|
                    0 <= j < i ==> (#[trigger] items@[j]).class == self.0 && items@[j].id
                        == pairs@[j].0 && spec_decode_status(pairs@[j].1@) == Some(
                        (items@[j].donated, items@[j].stock),
                    ),
            decreases pairs@.len() - i,
        {
            match decode_status(&pairs[i].1) {
                Some(ds) => {
                    items.push(
                        Item {
                            class: self.0.clone(),
                            id: pairs[i].0.clone(),
                            donated: ds.0,
                            stock: ds.1,
                        },
                    );
                },
                None => {
                    proof {
                        assert(store.hash_at(key@).contains_key(pairs@[i as int].0@)
                            && spec_decode_status(
                            store.hash_at(key@)[pairs@[i as int].0@],
                        ) is None);
                    }
                    return Err(ItemError::new(ErrorKind::ItemsNotFound));
                },
            }
            i = i + 1;
        }
        let r: Result<Vec<Item>, ItemError> = Ok(items);
        proof {
            assert forall|k: Seq<char>|
                store.hash_at(class_key(subscriber_id@, old(self).0@)).contains_key(k) implies
                spec_decode_status(
                    #[trigger] store.hash_at(class_key(subscriber_id@, old(self).0@))[k],
                ) is Some && exists|a: int|
                0 <= a < r->Ok_0@.len() && (#[trigger] r->Ok_0@[a]).id@ == k by {
                let a = choose|a: int| 0 <= a < pairs@.len() && #[trigger] pairs@[a].0@ == k;
                assert(items@[a].id == pairs@[a].0);
                assert(spec_decode_status(pairs@[a].1@) is Some);
                assert((r->Ok_0@[a]).id@ == k);
            }
        }
        r
    }

    /// Writes `items` into this category for `subscriber_id`. The reserved
    /// category names are rejected with `InvalidCategory` to prevent key
    /// collision with the profile and friend stores; an empty list is a
    /// successful no-op; existing fields with the same item id are
    /// overwritten, and fields absent from the list are kept.
    pub fn set_class(&mut self, store: &mut Store, subscriber_id: &String, items: Vec<Item>) -> (r:
        Result<(), ItemError>)
        requires
            old(store).wf(),
        ensures
            *final(self) == *old(self),
            final(store).wf(),
            old(self).0@ == "profile"@ || old(self).0@ == "friends"@ ==> r is Err
                && r->Err_0.kind == ErrorKind::InvalidCategory && *final(store) == *old(store),
            old(self).0@ != "profile"@ && old(self).0@ != "friends"@ ==> r is Ok,
            old(self).0@ != "profile"@ && old(self).0@ != "friends"@ && items@.len() == 0
                ==> *final(store) == *old(store),
            old(self).0@ != "profile"@ && old(self).0@ != "friends"@ && items@.len() > 0
                ==> final(store).hash_at(class_key(subscriber_id@, old(self).0@)) == merge_items(
                old(store).hash_at(class_key(subscriber_id@, old(self).0@)),
                items@,
            ) && (forall|k: Seq<char>|
                k != class_key(subscriber_id@, old(self).0@) ==> #[trigger] final(store).hash_at(k)
                    == old(store).hash_at(k)) && final(store).token_map == old(store).token_map
                && final(store).members == old(store).members,
    {
        if self.0 == String::from_str("profile") || self.0 == String::from_str("friends") {
            return Err(ItemError::new(ErrorKind::InvalidCategory));
        }
        let key = class_key_exec(subscriber_id, &self.0);
        let ghost orig = old(store).hash_at(key@);
        let mut i: usize = 0;
        while i < items.len()
            invariant
                i <= items@.len(),
                store.wf(),
                key@ == class_key(subscriber_id@, old(self).0@),
                i == 0 ==> *store == *old(store),
                store.hash_at(key@) == merge_items(orig, items@.take(i as int)),
                forall|k: Seq<char>|
                    k != key@ ==> #[trigger] store.hash_at(k) == old(store).hash_at(k),
                store.token_map == old(store).token_map,
                store.members == old(store).members,
            decreases items@.len() - i,
        {
            let ghost prev = *store;
            let encoded = encode_status(items[i].donated, items[i].stock);
            store.hashes.hset(&key, items[i].id.clone(), encoded);
            proof {
                assert(items@.take(i + 1).drop_last() =~= items@.take(i as int));
                assert(items@.take(i + 1).last() == items@[i as int]);
                assert(merge_items(orig, items@.take(i + 1)) == merge_items(
                    orig,
                    items@.take(i + 1).drop_last(),
                ).insert(
                    items@.take(i + 1).last().id@,
                    spec_encode_status(
                        items@.take(i + 1).last().donated,
                        items@.take(i + 1).last().stock,
                    ),
                ));
                assert(store.hash_at(key@) == prev.hash_at(key@).insert(
                    items@[i as int].id@,
                    spec_encode_status(items@[i as int].donated, items@[i as int].stock),
                ));
                assert forall|k: Seq<char>|
                    k != key@ implies #[trigger] store.hash_at(k) == old(store).hash_at(k) by {
                    assert(prev.hash_at(k) == old(store).hash_at(k));
                }
            }
            i = i + 1;
        }
        proof {
            if items@.len() > 0 {
                assert(items@.take(items@.len() as int) =~= items@);
            }
        }
        Ok(())
    }
}

} // verus!
