//! The text forms this relay produces and reads: decimal user ids and the
//! system messages announced to room members.
use vstd::prelude::*;
use vstd::string::*;

verus! {

/// The character of one decimal digit.
pub open spec fn digit_char(d: int) -> char {
    if d == 0 {
        '0'
    } else if d == 1 {
        '1'
    } else if d == 2 {
        '2'
    } else if d == 3 {
        '3'
    } else if d == 4 {
        '4'
    } else if d == 5 {
        '5'
    } else if d == 6 {
        '6'
    } else if d == 7 {
        '7'
    } else if d == 8 {
        '8'
    } else {
        '9'
    }
}

/// Decimal notation of a natural number, without leading zeros.
pub open spec fn decimal(n: nat) -> Seq<char>
    decreases n,
{
    if n < 10 {
        seq![digit_char(n as int)]
    } else {
        decimal(n / 10).push(digit_char((n % 10) as int))
    }
}

fn digit_str(d: u8) -> (r: &'static str)
    requires
        d < 10,
    ensures
        r@ == seq![digit_char(d as int)],
{
    if d == 0 {
        proof { reveal_strlit("0"); }
        "0"
    } else if d == 1 {
        proof { reveal_strlit("1"); }
        "1"
    } else if d == 2 {
        proof { reveal_strlit("2"); }
        "2"
    } else if d == 3 {
        proof { reveal_strlit("3"); }
        "3"
    } else if d == 4 {
        proof { reveal_strlit("4"); }
        "4"
    } else if d == 5 {
        proof { reveal_strlit("5"); }
        "5"
    } else if d == 6 {
        proof { reveal_strlit("6"); }
        "6"
    } else if d == 7 {
        proof { reveal_strlit("7"); }
        "7"
    } else if d == 8 {
        proof { reveal_strlit("8"); }
        "8"
    } else {
        proof { reveal_strlit("9"); }
        "9"
    }
}

/// Appends the decimal notation of `n` to `s`.
pub fn push_decimal(s: &mut String, n: u8)
    ensures
        final(s)@ == old(s)@ + decimal(n as nat),
    decreases n,
{
    if n >= 10 {
        push_decimal(s, n / 10);
    }
    s.append(digit_str(n % 10));
    assert(s@ =~= old(s)@ + decimal(n as nat));
}

/// The decimal text of a user id.
pub fn id_text(n: u8) -> (r: String)
    ensures
        r@ == decimal(n as nat),
{
    let mut s = String::new();
    push_decimal(&mut s, n);
    assert(s@ =~= decimal(n as nat));
    s
}

/// Whether `c` is an ASCII decimal digit.
pub open spec fn is_digit(c: char) -> bool {
    '0' <= c && c <= '9'
}

/// The value of a string of decimal digits, leading zeros allowed.
pub open spec fn digits_value(s: Seq<char>) -> int
    decreases s.len(),
{
    if s.len() == 0 {
        0
    } else {
        digits_value(s.drop_last()) * 10 + (s.last() as int - '0' as int)
    }
}

/// The digits of a user id as written in a `to` field: an optional `+`, then
/// the rest.
pub open spec fn id_digits(s: Seq<char>) -> Seq<char> {
    if s.len() > 0 && s[0] == '+' {
        s.subrange(1, s.len() as int)
    } else {
        s
    }
}

/// The user id that a `to` field names: at least one decimal digit after an
/// optional `+`, with a value that fits in a `u8`; nothing else names one.
pub open spec fn parse_id(s: Seq<char>) -> Option<u8> {
    let d = id_digits(s);
    if d.len() > 0 && (forall|i: int| 0 <= i < d.len() ==> is_digit(#[trigger] d[i]))
        && digits_value(d) <= 255 {
        Some(digits_value(d) as u8)
    } else {
        None
    }
}

/// Reads the user id that a `to` field names.
pub fn parse_user_id(s: &str) -> (r: Option<u8>)
    ensures
        r == parse_id(s@),
{
    let n = s.unicode_len();
    let mut start: usize = 0;
    if n > 0 && s.get_char(0) == '+' {
        start = 1;
    }
    let ghost d = id_digits(s@);
    assert(d =~= s@.subrange(start as int, n as int));
    if start >= n {
        return None;
    }
    let mut acc: u32 = 0;
    let mut i: usize = start;
    while i < n
        invariant
            start <= i <= n,
            n == s@.len(),
            d == id_digits(s@),
            d =~= s@.subrange(start as int, n as int),
            forall|j: int| 0 <= j < i - start ==> is_digit(#[trigger] d[j]),
            acc <= 256,
            acc == (if digits_value(d.take(i - start)) > 255 {
                256
            } else {
                digits_value(d.take(i - start))
            }),
            digits_value(d.take(i - start)) >= 0,
        decreases n - i,
    {
        let c = s.get_char(i);
        if !('0' <= c && c <= '9') {
            assert(d[i - start] == c);
            assert(!is_digit(d[i - start]));
            return None;
        }
        let ghost k = i - start;
        assert(d.take(k + 1).drop_last() =~= d.take(k));
        assert(d.take(k + 1).last() == c);
        let v = (c as u32) - ('0' as u32);
        if acc == 256 {
            acc = 256;
        } else {
            acc = acc * 10 + v;
            if acc > 255 {
                acc = 256;
            }
        }
        i = i + 1;
    }
    assert(d.take(n - start) =~= d);
    if acc > 255 {
        None
    } else {
        Some(acc as u8)
    }
}

/// The announcement that user `id` left the room.
pub open spec fn user_left_text(id: u8) -> Seq<char> {
    "{\"id\":"@ + decimal(id as nat) + ",\"type\":\"user-left\"}"@
}

/// The announcement that user `id` joined the room.
pub open spec fn new_user_text(id: u8) -> Seq<char> {
    "{\"id\":"@ + decimal(id as nat) + ",\"type\":\"new-user\"}"@
}

/// The ids of `ids`, in decimal, separated by commas.
pub open spec fn id_list(ids: Seq<u8>) -> Seq<char>
    decreases ids.len(),
{
    if ids.len() == 0 {
        Seq::empty()
    } else if ids.len() == 1 {
        decimal(ids[0] as nat)
    } else {
        id_list(ids.drop_last()) + ","@ + decimal(ids.last() as nat)
    }
}

/// The status sent to a newly joined user `me`: its own id and every member.
pub open spec fn status_text(me: u8, ids: Seq<u8>) -> Seq<char> {
    "{\"myId\":"@ + decimal(me as nat) + ",\"type\":\"room-status\",\"users\":["@ + id_list(ids)
        + "]}"@
}

/// Builds the announcement that user `id` left the room.
pub fn user_left_message(id: u8) -> (r: String)
    ensures
        r@ == user_left_text(id),
{
    let mut s = String::new();
    s.append("{\"id\":");
    push_decimal(&mut s, id);
    s.append(",\"type\":\"user-left\"}");
    assert(s@ =~= user_left_text(id));
    s
}

/// Builds the announcement that user `id` joined the room.
pub fn new_user_message(id: u8) -> (r: String)
    ensures
        r@ == new_user_text(id),
{
    let mut s = String::new();
    s.append("{\"id\":");
    push_decimal(&mut s, id);
    s.append(",\"type\":\"new-user\"}");
    assert(s@ =~= new_user_text(id));
    s
}

/// Builds the status message for a user `me` who joined a room with members `ids`.
pub fn status_message(me: u8, ids: &Vec<u8>) -> (r: String)
    ensures
        r@ == status_text(me, ids@),
{
    let mut s = String::new();
    s.append("{\"myId\":");
    push_decimal(&mut s, me);
    s.append(",\"type\":\"room-status\",\"users\":[");
    let ghost head = s@;
    let mut i: usize = 0;
    assert(ids@.take(0) =~= Seq::<u8>::empty());
    assert(s@ =~= head + id_list(ids@.take(0)));
    while i < ids.len()
        invariant
            i <= ids@.len(),
            s@ == head + id_list(ids@.take(i as int)),
        decreases ids@.len() - i,
    {
        if i > 0 {
            s.append(",");
        }
        push_decimal(&mut s, ids[i]);
        assert(ids@.take(i + 1).drop_last() =~= ids@.take(i as int));
        assert(s@ =~= head + id_list(ids@.take(i + 1)));
        i = i + 1;
    }
    assert(ids@.take(ids@.len() as int) =~= ids@);
    s.append("]}");
    assert(s@ =~= status_text(me, ids@));
    s
}

/// Whether two texts hold the same characters.
pub fn same_text(a: &str, b: &str) -> (r: bool)
    ensures
        r == (a@ == b@),
{
    let n = a.unicode_len();
    if n != b.unicode_len() {
        return false;
    }
    let mut i: usize = 0;
    while i < n
        invariant
            i <= n,
            n == a@.len(),
            n == b@.len(),
            forall|j: int| 0 <= j < i ==> a@[j] == b@[j],
        decreases n - i,
    {
        if a.get_char(i) != b.get_char(i) {
            return false;
        }
        i = i + 1;
    }
    assert(a@ =~= b@);
    true
}

} // verus!
