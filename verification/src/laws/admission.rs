//! Who may run a test.

use vstd::prelude::*;
use vstd::utf8::{encode_utf8, valid_utf8};

use crate::common::auth::{admit_client, authorize, build_authtoken_at, claim_from_plain};
use crate::common::auth::{decide_claim, decode_authtoken, hex, hex_digit, is_key_pair, parse_claim};
use crate::common::auth::{sha256, sha256_hex, token_claims, validate_timestamp_at, AuthClaim};
use crate::common::auth::{parse_authorized_users, AuthorizedUsers, PrivateKey, PublicKey};
use crate::common::auth::{line_says, users_in, UserLine};
use crate::common::text::{decimal, index_of, lines, number, same_ignoring_case, same_letter};
use crate::laws::texts::{all_digits, caseless, decimal_reads_back, digits_of, digits_one_by_one};
use crate::laws::texts::{first_at, hollow, read_decimal, trimmed, value_behind, white};
use crate::laws::texts::{without_plus, worth};

verus! {

// ---------------------------------------------------------------------
// Digests.

/// A lower-case hexadecimal digit.
pub open spec fn small_hex(c: char) -> bool {
    '0' <= c && c <= '9' || 'a' <= c && c <= 'f'
}

proof fn hex_digits_show_their_worth(d: int)
    requires
        0 <= d < 16,
    ensures
        small_hex(hex_digit(d)),
        worth(hex_digit(d)) == d,
{
}

/// Two digits at a position show a byte.
pub open spec fn shows(s: Seq<char>, at: int, byte: int) -> bool {
    &&& small_hex(s[at])
    &&& small_hex(s[at + 1])
    &&& 16 * worth(s[at]) + worth(s[at + 1]) == byte
}

proof fn hex_shows_each_byte(data: Seq<u8>)
    ensures
        hex(data).len() == 2 * data.len(),
        forall|i: int| 0 <= i < data.len() ==> shows(hex(data), 2 * i, #[trigger] data[i] as int),
    decreases data.len(),
{
    if data.len() > 0 {
        let head = data.drop_last();
        hex_shows_each_byte(head);
        hex_digits_show_their_worth(data.last() as int / 16);
        hex_digits_show_their_worth(data.last() as int % 16);
        assert forall|i: int| 0 <= i < data.len() implies shows(
            hex(data),
            2 * i,
            #[trigger] data[i] as int,
        ) by {
            if i < head.len() {
                assert(head[i] == data[i]);
                assert(hex(data)[2 * i] == hex(head)[2 * i]);
                assert(hex(data)[2 * i + 1] == hex(head)[2 * i + 1]);
            }
        }
    }
}

/// The digest of a text is that of its bytes, each byte as two lower-case
/// hexadecimal digits, the higher one first.
pub proof fn digests_are_written_byte_by_byte(input: &str, s: String)
    requires
        call_ensures(sha256_hex, (input,), s),
    ensures
        ({
            let digest = sha256(encode_utf8(input@));
            &&& s@.len() == 2 * digest.len()
            &&& forall|i: int|
                0 <= i < digest.len() ==> shows(s@, 2 * i, #[trigger] digest[i] as int)
        }),
{
    hex_shows_each_byte(sha256(encode_utf8(input@)));
}

// ---------------------------------------------------------------------
// Claims.

/// The number that a time is written as: decimal digits, with or without a
/// plus sign, for no more than 64 bits.
pub open spec fn is_time(s: Seq<char>) -> bool {
    let t = without_plus(s);
    t.len() > 0 && digits_of(t, 10) && value_behind(0, t, 10) <= 0xffff_ffff_ffff_ffff
}

/// No character of a text is a line feed.
pub open spec fn one_line(s: Seq<char>) -> bool {
    forall|i: int| 0 <= i < s.len() ==> #[trigger] s[i] != '\n'
}

proof fn times_are_numbers(s: Seq<char>)
    ensures
        number(s, 10, u64::MAX as int) is Ok <==> is_time(s),
        is_time(s) ==> number(s, 10, u64::MAX as int)->Ok_0 == value_behind(0, without_plus(s), 10),
{
    let t = without_plus(s);
    digits_one_by_one(t, 10, 0, u64::MAX as int);
    if s.len() == 1 && s[0] == '+' {
        assert(s =~= seq!['+']);
    }
    if s == seq!['+'] {
        assert(t.len() == 0);
    }
}

proof fn line_feed_behind(line: Seq<char>, rest: Seq<char>)
    requires
        one_line(line),
    ensures
        index_of(line + seq!['\n'] + rest, '\n') == line.len(),
        (line + seq!['\n'] + rest).take(line.len() as int) == line,
        (line + seq!['\n'] + rest).skip(line.len() as int + 1) == rest,
        index_of(line, '\n') == line.len(),
        line.take(line.len() as int) == line,
{
    let s = line + seq!['\n'] + rest;
    first_at(s, '\n');
    first_at(line, '\n');
    let i = index_of(s, '\n');
    let n = line.len() as int;
    assert(s[n] == '\n');
    if i < n {
        assert(s[i] == line[i]);
    }
    if i > n {
        assert(s[n] != '\n');
    }
    let k = index_of(line, '\n');
    if k < n {
        assert(line[k] != '\n');
    }
    assert(s.take(n) =~= line);
    assert(s.skip(n + 1) =~= rest);
    assert(line.take(n) =~= line);
}

/// A claim is the time on one line, the user on the next, and behind that the
/// digest, whatever it holds.
pub proof fn claims_are_three_lines(
    text: &str,
    time: Seq<char>,
    user: Seq<char>,
    digest: Seq<char>,
    r: Result<AuthClaim, String>,
)
    requires
        call_ensures(parse_claim, (text,), r),
        one_line(time),
        one_line(user),
    ensures
        text@ == time + seq!['\n'] + (user + seq!['\n'] + digest) ==> {
            &&& r is Ok <==> is_time(time)
            &&& r matches Ok(c) ==> {
                &&& c.timestamp == value_behind(0, without_plus(time), 10)
                &&& c.username@ == user
                &&& c.password_sha256_hex@ == digest
            }
        },
        text@ == time + seq!['\n'] + user && is_time(time) ==> r is Err && r->Err_0@
            == "missing password hash"@,
        text@ == time && is_time(time) ==> r is Err && r->Err_0@ == "missing username"@,
        text@ == time && !is_time(time) ==> r is Err && "bad timestamp: "@.is_prefix_of(r->Err_0@),
{
    times_are_numbers(time);
    line_feed_behind(time, user + seq!['\n'] + digest);
    line_feed_behind(time, user);
    line_feed_behind(user, digest);
    if r is Err && !is_time(time) && text@ == time {
        let e = number(time, 10, u64::MAX as int)->Err_0;
        let m = crate::common::text::number_error_text(e);
        assert(("bad timestamp: "@ + m).take("bad timestamp: "@.len() as int) =~= "bad timestamp: "@);
    }
}

/// What was decrypted is read as UTF-8, and then as a claim.
pub proof fn decrypted_bytes_are_text(
    plain: Vec<u8>,
    text: &str,
    r: Result<AuthClaim, String>,
    q: Result<AuthClaim, String>,
)
    requires
        call_ensures(claim_from_plain, (plain,), r),
        call_ensures(parse_claim, (text,), q),
    ensures
        plain@ == encode_utf8(text@) ==> {
            &&& r is Ok <==> q is Ok
            &&& r is Ok ==> r->Ok_0.timestamp == q->Ok_0.timestamp && r->Ok_0.username@
                == q->Ok_0.username@ && r->Ok_0.password_sha256_hex@
                == q->Ok_0.password_sha256_hex@
            &&& r is Err ==> r->Err_0@ == q->Err_0@
        },
        !valid_utf8(plain@) ==> r is Err && r->Err_0@ == "authtoken not utf8"@,
{
    vstd::utf8::encode_utf8_valid_utf8(text@);
    vstd::utf8::encode_utf8_decode_utf8(text@);
}

/// A token tells the server with the matching key when it was made, by whom,
/// and the digest of the password.
pub proof fn tokens_tell_who_made_them(
    public_key: &PublicKey,
    private_key: &PrivateKey,
    user: &str,
    password: &str,
    digest: String,
    time: u64,
    built: Result<String, String>,
    token: &str,
    r: Result<AuthClaim, String>,
)
    requires
        is_key_pair(private_key.larger_first(), public_key.der@),
        one_line(user@),
        call_ensures(sha256_hex, (password,), digest),
        call_ensures(build_authtoken_at, (public_key, user, password, time), built),
        built is Ok,
        token@ == built->Ok_0@,
        call_ensures(decode_authtoken, (private_key, token), r),
    ensures
        r is Ok,
        r->Ok_0.timestamp == time,
        r->Ok_0.username@ == user@,
        r->Ok_0.password_sha256_hex@ == digest@,
{
    assert(!user@.contains('\n')) by {
        if user@.contains('\n') {
            let i = choose|i: int| 0 <= i < user@.len() && user@[i] == '\n';
            assert(user@[i] != '\n');
        }
    }
    crate::common::auth::token_round_trip(
        private_key.larger_first(),
        public_key.der@,
        time,
        user@,
        password@,
        token@,
        r,
    );
}

// ---------------------------------------------------------------------
// Freshness.

/// A claim holds as long as its time and the server's are no further apart
/// than allowed, whichever is later; else it is told how far they are.
pub proof fn claims_hold_around_their_time(
    claim: &AuthClaim,
    skew: u64,
    now: u64,
    r: Result<(), String>,
)
    requires
        call_ensures(validate_timestamp_at, (claim, skew, now), r),
    ensures
        r is Ok <==> now - claim.timestamp <= skew && claim.timestamp - now <= skew,
        r is Err ==> exists|far: Seq<char>, limit: Seq<char>|
            {
                &&& r->Err_0@ == "timestamp skew "@ + far + " > "@ + limit
                &&& #[trigger] all_digits(far)
                &&& #[trigger] all_digits(limit)
                &&& read_decimal(far) == now - claim.timestamp || read_decimal(far)
                    == claim.timestamp - now
                &&& read_decimal(far) > 0
                &&& read_decimal(limit) == skew
            },
{
    let d = if now >= claim.timestamp {
        now - claim.timestamp
    } else {
        claim.timestamp - now
    };
    decimal_reads_back(d as nat);
    decimal_reads_back(skew as nat);
    let far = decimal(d as nat);
    let limit = decimal(skew as nat);
    assert(all_digits(far) && all_digits(limit));
}

// ---------------------------------------------------------------------
// Users.

/// No user is known at first.
pub proof fn nobody_is_known_at_first(u: AuthorizedUsers, name: &str, r: Option<&String>)
    requires
        call_ensures(AuthorizedUsers::new, (), u),
        call_ensures(AuthorizedUsers::get, (&u, name), r),
    ensures
        r is None,
{
}

/// A user who was entered is known, with the digest entered last; the others
/// are known as before.
pub proof fn users_are_known_once_entered(
    u: &mut AuthorizedUsers,
    name: String,
    digest: String,
    other: &str,
    before: Option<&String>,
    after: Option<&String>,
)
    requires
        call_ensures(AuthorizedUsers::insert, (u, name, digest), ()),
        call_ensures(AuthorizedUsers::get, (&*old(u), other), before),
        call_ensures(AuthorizedUsers::get, (&*final(u), other), after),
    ensures
        other@ == name@ ==> after is Some && after->0@ == digest@,
        other@ != name@ ==> (after is Some <==> before is Some),
        other@ != name@ && after is Some ==> after->0@ == before->0@,
{
}

/// A claim is accepted exactly if its user is known and the digest is the
/// one known for them, whatever the case of its letters.
pub proof fn known_users_with_the_right_digest_are_accepted(
    claim: &AuthClaim,
    users: &AuthorizedUsers,
    name: &str,
    known: Option<&String>,
    r: Result<(), String>,
)
    requires
        call_ensures(authorize, (claim, users), r),
        name@ == claim.username@,
        call_ensures(AuthorizedUsers::get, (users, name), known),
    ensures
        r is Ok <==> known is Some && same_but_for_case(known->0@, claim.password_sha256_hex@),
        known is None ==> r is Err && r->Err_0@ == "unknown user: "@ + claim.username@,
        known is Some && r is Err ==> r->Err_0@ == "bad password"@,
{
    if known is Some {
        case_does_not_matter(known->0@, claim.password_sha256_hex@);
    }
}

/// Two texts agree, but for the case of the letters of ASCII.
pub open spec fn same_but_for_case(a: Seq<char>, b: Seq<char>) -> bool {
    a.len() == b.len() && forall|i: int|
        0 <= i < a.len() ==> caseless(#[trigger] a[i]) == caseless(b[i])
}

proof fn case_does_not_matter(a: Seq<char>, b: Seq<char>)
    ensures
        same_ignoring_case(a, b) <==> same_but_for_case(a, b),
{
    assert forall|x: char, y: char| #[trigger]
        same_letter(x, y) <==> caseless(x) == caseless(y) by {}
    if same_ignoring_case(a, b) {
        assert forall|i: int| 0 <= i < a.len() implies caseless(#[trigger] a[i]) == caseless(
            b[i],
        ) by {
            assert(same_letter(a[i], b[i]));
        }
    }
    if same_but_for_case(a, b) {
        assert forall|i: int| 0 <= i < a.len() implies same_letter(#[trigger] a[i], b[i]) by {
            assert(caseless(a[i]) == caseless(b[i]));
        }
    }
}

/// A text with white space round it.
pub open spec fn wraps(all: Seq<char>, before: Seq<char>, core: Seq<char>, after: Seq<char>) -> bool {
    &&& all == before + core + after
    &&& hollow(before)
    &&& hollow(after)
    &&& core.len() == 0 || !white(core[0]) && !white(core.last())
}

/// Later lines count before those already read.
proof fn later_lines_count(all: Seq<Seq<char>>, known: Map<Seq<char>, Seq<char>>)
    ensures
        match (users_in(all, known), users_in(all, Map::empty())) {
            (Ok(a), Ok(b)) => forall|n: Seq<char>|
                {
                    &&& #[trigger] a.dom().contains(n) <==> b.dom().contains(n)
                        || known.dom().contains(n)
                    &&& b.dom().contains(n) ==> a[n] == b[n]
                    &&& !b.dom().contains(n) && known.dom().contains(n) ==> a[n] == known[n]
                },
            (Err(a), Err(b)) => a == b,
            _ => false,
        },
    decreases all.len(),
{
    if all.len() > 0 {
        match line_says(all[0]) {
            UserLine::Nothing => later_lines_count(all.skip(1), known),
            UserLine::Bad(_) => {},
            UserLine::User(name, digest) => {
                let none = Map::<Seq<char>, Seq<char>>::empty();
                later_lines_count(all.skip(1), known.insert(name, digest));
                later_lines_count(all.skip(1), none.insert(name, digest));
            },
        }
    }
}

/// The file of users goes line by line. Blank lines and those that start with
/// a hash sign say nothing; the others hold a name and behind a comma a
/// digest, white space round each left out; one without a comma is bad, and
/// is told. The last line on a user counts.
pub proof fn users_are_read_line_by_line(
    contents: &str,
    line: Seq<char>,
    tail: &str,
    before: Seq<char>,
    core: Seq<char>,
    after: Seq<char>,
    r: Result<AuthorizedUsers, String>,
    q: Result<AuthorizedUsers, String>,
    name: &str,
    all: Option<&String>,
    later: Option<&String>,
)
    requires
        call_ensures(parse_authorized_users, (contents,), r),
        call_ensures(parse_authorized_users, (tail,), q),
        contents@ == line + seq!['\n'] + tail@ || contents@ == line && line.len() > 0
            && tail@.len() == 0,
        one_line(line),
        wraps(line, before, core, after),
        r matches Ok(u) ==> call_ensures(AuthorizedUsers::get, (&u, name), all),
        q matches Ok(u) ==> call_ensures(AuthorizedUsers::get, (&u, name), later),
    ensures
        tail@.len() == 0 ==> q is Ok && later is None,
        core.len() == 0 || core[0] == '#' ==> {
            &&& r is Ok <==> q is Ok
            &&& r is Err ==> r->Err_0@ == q->Err_0@
            &&& r is Ok ==> (all is Some <==> later is Some)
            &&& r is Ok && all is Some ==> all->0@ == later->0@
        },
        core.len() > 0 && core[0] != '#' && !core.contains(',') ==> r is Err && r->Err_0@
            == "bad line: "@ + core,
        forall|b: Seq<char>, user: Seq<char>, a: Seq<char>, field: Seq<char>, b2: Seq<char>,
            digest: Seq<char>, a2: Seq<char>, rest: Seq<char>|
            #![trigger wraps(field, b, user, a), wraps(rest, b2, digest, a2)]
            wraps(field, b, user, a) && wraps(rest, b2, digest, a2) && core == field + seq![
                ',',
            ] + rest && core[0] != '#' && !field.contains(',') ==> {
                &&& r is Ok <==> q is Ok
                &&& r is Err ==> r->Err_0@ == q->Err_0@
                &&& r is Ok && later is Some ==> all is Some && all->0@ == later->0@
                &&& r is Ok && later is None && name@ == user ==> all is Some && all->0@ == digest
                &&& r is Ok && later is None && name@ != user ==> all is None
            },
{
    let none = Map::<Seq<char>, Seq<char>>::empty();
    let ls = lines(contents@);
    line_feed_behind(line, tail@);
    assert(ls.len() > 0 && ls[0] == line && ls.skip(1) =~= lines(tail@));
    trimmed(before, core, after);
    first_at(core, ',');
    if core.contains(',') {
        let k = choose|k: int| 0 <= k < core.len() && core[k] == ',';
        assert(core[k] == ',');
    } else if index_of(core, ',') < core.len() {
        assert(core.contains(core[index_of(core, ',')]));
    }
    assert forall|b: Seq<char>, user: Seq<char>, a: Seq<char>, field: Seq<char>, b2: Seq<char>,
        digest: Seq<char>, a2: Seq<char>, rest: Seq<char>|
        #![trigger wraps(field, b, user, a), wraps(rest, b2, digest, a2)]
        wraps(field, b, user, a) && wraps(rest, b2, digest, a2) && core == field + seq![
            ',',
        ] + rest && core[0] != '#' && !field.contains(',') implies {
        &&& r is Ok <==> q is Ok
        &&& r is Err ==> r->Err_0@ == q->Err_0@
        &&& r is Ok && later is Some ==> all is Some && all->0@ == later->0@
        &&& r is Ok && later is None && name@ == user ==> all is Some && all->0@ == digest
        &&& r is Ok && later is None && name@ != user ==> all is None
    } by {
        crate::common::text::index_of_joined(field, ',', rest);
        assert(core.take(field.len() as int) =~= field);
        assert(core.skip(field.len() as int + 1) =~= rest);
        trimmed(b, user, a);
        trimmed(b2, digest, a2);
        assert(line_says(line) == UserLine::User(user, digest));
        later_lines_count(lines(tail@), none.insert(user, digest));
    }
}

/// A claim gets its client in exactly if it could be read, lies within ten
/// seconds of the server's time, and names a known user with their digest.
/// What is wrong with it is told in that order.
pub proof fn claims_are_read_then_dated_then_looked_up(
    claim: Result<AuthClaim, String>,
    users: &AuthorizedUsers,
    now: u64,
    name: &str,
    known: Option<&String>,
    r: Result<(), String>,
)
    requires
        call_ensures(decide_claim, (claim, users, now), r),
        claim is Ok ==> name@ == claim->Ok_0.username@,
        call_ensures(AuthorizedUsers::get, (users, name), known),
    ensures
        claim matches Err(e) ==> r == Err::<(), String>(e),
        claim matches Ok(c) ==> {
            let late = now - c.timestamp > 10 || c.timestamp - now > 10;
            &&& r is Ok <==> !late && known is Some && same_but_for_case(
                known->0@,
                c.password_sha256_hex@,
            )
            &&& late ==> r is Err && "timestamp skew "@.is_prefix_of(r->Err_0@)
            &&& !late && known is None ==> r is Err && r->Err_0@ == "unknown user: "@ + c.username@
            &&& !late && known is Some && r is Err ==> r->Err_0@ == "bad password"@
        },
{
    if claim is Ok {
        let c = claim->Ok_0;
        if known is Some {
            case_does_not_matter(known->0@, c.password_sha256_hex@);
        }
        if now - c.timestamp > 10 || c.timestamp - now > 10 {
            let m = r->Err_0@;
            assert(m.take("timestamp skew "@.len() as int) =~= "timestamp skew "@);
        }
    }
}

/// A server with a key and a file of users lets a client in exactly if it
/// sent a token whose claim is good; a server that lacks one of the two lets
/// everybody in.
pub proof fn clients_show_a_token_where_one_is_asked_for(
    key: &Option<PrivateKey>,
    users: &Option<AuthorizedUsers>,
    token: &Option<String>,
    now: u64,
    r: Result<(), String>,
    text: &str,
    claim: Result<AuthClaim, String>,
    decided: Result<(), String>,
)
    requires
        call_ensures(admit_client, (key, users, token, now), r),
        token matches Some(t) ==> text@ == t@,
        key matches Some(k) ==> call_ensures(decode_authtoken, (k, text), claim),
        users matches Some(u) ==> call_ensures(decide_claim, (claim, u, now), decided),
    ensures
        key is None || users is None ==> r is Ok,
        key is Some && users is Some && token is None ==> r is Err && r->Err_0@
            == "missing authtoken"@,
        key is Some && users is Some && token is Some ==> {
            &&& r is Ok <==> decided is Ok
            &&& r is Err ==> r->Err_0@ == decided->Err_0@
        },
{
    if key is Some && users is Some && token is Some {
        let other = choose|other: Result<AuthClaim, String>| #[trigger]
            token_claims(key->0.larger_first(), token->0@, other)
                && crate::common::auth::claim_decision(other, users->0@, now, r);
        assert(token_claims(key->0.larger_first(), token->0@, claim));
        assert(other is Ok <==> claim is Ok);
    }
}

} // verus!
