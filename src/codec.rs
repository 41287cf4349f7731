//! The credentials file: one record per line,
//! `$<name>$<hash length><hash>\n`, where the hash is a PHC string that
//! itself begins with `$` and holds more of them. The length, counted in
//! characters and including that first `$`, is what delimits the hash.

use crate::error::{LoadFault, LoadUsersError};
use crate::hasher::{check_phc, phc_parses, storable_hash};
use crate::text::{
    all_digits, chars_of, decimal, decimal_value, is_digit, lemma_decimal_reads_back,
    digits_only, parse_decimal, push_char, string_of, write_decimal,
};
use crate::username::{name_char_allowed, valid_username, UserNameError};
use vstd::prelude::*;

verus! {

/// Separates the fields of a record.
pub const SEP: char = '$';

/// Ends a record.
pub const ENTRY_SEP: char = '\n';

/// A username with the PHC string of its password hash.
pub struct CredentialRecord {
    pub name: String,
    pub hash: String,
}

impl View for CredentialRecord {
    type V = (Seq<char>, Seq<char>);

    open spec fn view(&self) -> (Seq<char>, Seq<char>) {
        (self.name@, self.hash@)
    }
}

/// The views of a list of records.
pub open spec fn records_view(v: Seq<CredentialRecord>) -> Seq<(Seq<char>, Seq<char>)> {
    v.map_values(|r: CredentialRecord| r@)
}

/// A record that the format can hold and read back.
pub open spec fn record_ok(r: (Seq<char>, Seq<char>)) -> bool {
    valid_username(r.0) && storable_hash(r.1)
}

/// The line that stores one record.
pub open spec fn encode_spec(name: Seq<char>, hash: Seq<char>) -> Seq<char> {
    seq![SEP] + name + seq![SEP] + decimal(hash.len()) + hash + seq![ENTRY_SEP]
}

/// The lines of several records, in order.
pub open spec fn encode_all(rs: Seq<(Seq<char>, Seq<char>)>) -> Seq<char>
    decreases rs.len(),
{
    if rs.len() == 0 {
        Seq::empty()
    } else {
        encode_spec(rs[0].0, rs[0].1) + encode_all(rs.drop_first())
    }
}

/// How many leading characters of `t` may belong to a username.
pub open spec fn name_span(t: Seq<char>) -> nat
    decreases t.len(),
{
    if t.len() > 0 && name_char_allowed(t[0]) {
        1 + name_span(t.drop_first())
    } else {
        0
    }
}

/// How many leading characters of `t` come before the first separator.
pub open spec fn field_span(t: Seq<char>) -> nat
    decreases t.len(),
{
    if t.len() > 0 && t[0] != SEP {
        1 + field_span(t.drop_first())
    } else {
        0
    }
}

/// Reads the record at the start of a non-empty `s`: its name, its hash, and
/// how many characters it takes, with the newline after it.
pub open spec fn record_prefix(s: Seq<char>) -> Result<(Seq<char>, Seq<char>, int), LoadFault> {
    if s.len() == 0 || s[0] != SEP {
        Err(LoadFault::InvalidEntry)
    } else {
        let j: int = 1 + name_span(s.drop_first()) as int;
        if j >= s.len() {
            Err(LoadFault::IncompleteHash)
        } else if s[j] != SEP {
            Err(LoadFault::InvalidUserName(UserNameError::Char(s[j])))
        } else if j == 1 {
            Err(LoadFault::InvalidUserName(UserNameError::Empty))
        } else {
            let k: int = j + 1 + field_span(s.skip(j + 1)) as int;
            if k >= s.len() {
                Err(LoadFault::IncompleteHash)
            } else {
                let digits = s.subrange(j + 1, k);
                if !(digits.len() > 0 && all_digits(digits)) {
                    Err(LoadFault::BadHashLength)
                } else {
                    let e: int = k + decimal_value(digits) as int;
                    if e == k || e > s.len() {
                        Err(LoadFault::IncompleteHash)
                    } else if e < s.len() && s[e] != ENTRY_SEP {
                        Err(LoadFault::InvalidEntrySep(s[e]))
                    } else if !phc_parses(s.subrange(k, e)) {
                        Err(LoadFault::InvalidHash)
                    } else {
                        Ok(
                            (
                                s.subrange(1, j),
                                s.subrange(k, e),
                                if e < s.len() {
                                    e + 1
                                } else {
                                    e
                                },
                            ),
                        )
                    }
                }
            }
        }
    }
}

/// `Ok(acc + rs)` where `r` is `Ok(rs)`; the error of `r` otherwise.
pub open spec fn prepend(
    acc: Seq<(Seq<char>, Seq<char>)>,
    r: Result<Seq<(Seq<char>, Seq<char>)>, LoadFault>,
) -> Result<Seq<(Seq<char>, Seq<char>)>, LoadFault> {
    match r {
        Ok(rs) => Ok(acc + rs),
        Err(f) => Err(f),
    }
}

/// The records of a whole file, in order, or the first fault in it.
pub open spec fn decode_spec(s: Seq<char>) -> Result<Seq<(Seq<char>, Seq<char>)>, LoadFault>
    decreases s.len(),
{
    if s.len() == 0 {
        Ok(Seq::empty())
    } else {
        match record_prefix(s) {
            Err(f) => Err(f),
            Ok((name, hash, used)) => if 0 < used <= s.len() {
                prepend(seq![(name, hash)], decode_spec(s.skip(used)))
            } else {
                Err(LoadFault::InvalidEntry)
            },
        }
    }
}

proof fn lemma_name_span(t: Seq<char>, m: int)
    requires
        0 <= m <= t.len(),
        forall|k: int| 0 <= k < m ==> name_char_allowed(#[trigger] t[k]),
        m == t.len() || !name_char_allowed(t[m]),
    ensures
        name_span(t) == m,
    decreases m,
{
    if m > 0 {
        let u = t.drop_first();
        assert forall|k: int| 0 <= k < m - 1 implies name_char_allowed(#[trigger] u[k]) by {
            assert(u[k] == t[k + 1]);
        }
        lemma_name_span(u, m - 1);
    }
}

proof fn lemma_field_span(t: Seq<char>, m: int)
    requires
        0 <= m <= t.len(),
        forall|k: int| 0 <= k < m ==> #[trigger] t[k] != SEP,
        m == t.len() || t[m] == SEP,
    ensures
        field_span(t) == m,
    decreases m,
{
    if m > 0 {
        let u = t.drop_first();
        assert forall|k: int| 0 <= k < m - 1 implies #[trigger] u[k] != SEP by {
            assert(u[k] == t[k + 1]);
        }
        lemma_field_span(u, m - 1);
    }
}


/// Reads the record that starts at `chars[pos]`; on success also returns
/// where the next record starts.
fn read_record(chars: &Vec<char>, pos: usize) -> (r: Result<(CredentialRecord, usize), LoadUsersError>)
    requires
        pos < chars@.len(),
    ensures
        match r {
            Ok((rec, next)) => pos < next <= chars@.len() && record_prefix(chars@.skip(pos as int))
                == Ok::<_, LoadFault>((rec.name@, rec.hash@, next - pos)),
            Err(e) => record_prefix(chars@.skip(pos as int)) == Err::<(Seq<char>, Seq<char>, int), _>(e.fault()),
        },
{
    let ghost s = chars@;
    let ghost t = s.skip(pos as int);
    let n = chars.len();
    if chars[pos] != SEP {
        return Err(LoadUsersError::InvalidEntry);
    }
    // The username runs up to the first character that a name cannot hold.
    let mut i: usize = pos + 1;
    while i < n && crate::username::validate_username_char(chars[i])
        invariant
            s == chars@,
            n == s.len(),
            pos < i <= n,
            forall|k: int| pos < k < i ==> name_char_allowed(#[trigger] s[k]),
        decreases n - i,
    {
        i = i + 1;
    }
    let j = i;
    proof {
        let u = t.drop_first();
        assert(u =~= s.skip(pos + 1));
        assert forall|k: int| 0 <= k < j - pos - 1 implies name_char_allowed(#[trigger] u[k]) by {
            assert(u[k] == s[pos + 1 + k]);
        }
        lemma_name_span(u, j - pos - 1);
    }
    if j >= n {
        return Err(LoadUsersError::IncompleteHash);
    }
    if chars[j] != SEP {
        return Err(LoadUsersError::InvalidUserName(UserNameError::Char(chars[j])));
    }
    if j == pos + 1 {
        return Err(LoadUsersError::InvalidUserName(UserNameError::Empty));
    }
    // The length runs up to the separator that opens the hash.
    let mut i: usize = j + 1;
    while i < n && chars[i] != SEP
        invariant
            s == chars@,
            n == s.len(),
            j < i <= n,
            forall|k: int| j < k < i ==> #[trigger] s[k] != SEP,
        decreases n - i,
    {
        i = i + 1;
    }
    let k = i;
    proof {
        let u = t.skip(j - pos + 1);
        assert(u =~= s.skip(j + 1));
        assert forall|x: int| 0 <= x < k - j - 1 implies #[trigger] u[x] != SEP by {
            assert(u[x] == s[j + 1 + x]);
        }
        lemma_field_span(u, k - j - 1);
    }
    if k >= n {
        return Err(LoadUsersError::IncompleteHash);
    }
    assert(t.subrange(j - pos + 1, k - pos) =~= s.subrange(j + 1, k as int));
    let len = match parse_decimal(chars, j + 1, k) {
        Some(len) => len,
        None => {
            // Digits that do not fit a usize declare more characters than
            // the input can hold.
            if digits_only(chars, j + 1, k) {
                return Err(LoadUsersError::IncompleteHash);
            }
            return Err(LoadUsersError::BadHashLength);
        },
    };
    if len == 0 || len > n - k {
        return Err(LoadUsersError::IncompleteHash);
    }
    let e = k + len;
    if e < n && chars[e] != ENTRY_SEP {
        return Err(LoadUsersError::InvalidEntrySep(chars[e]));
    }
    let hash = string_of(chars, k, e);
    assert(t.subrange(k - pos, e - pos) =~= s.subrange(k as int, e as int));
    match check_phc(hash.as_str()) {
        Ok(()) => {},
        Err(err) => {
            return Err(LoadUsersError::InvalidHash(err));
        },
    }
    let name = string_of(chars, pos + 1, j);
    assert(t.subrange(1, j - pos) =~= s.subrange(pos + 1, j as int));
    let next = if e < n {
        e + 1
    } else {
        e
    };
    Ok((CredentialRecord { name, hash }, next))
}

/// Reads a whole credentials file into its records, in file order. Any fault
/// fails the whole read: no partial list is returned.
pub fn decode_records(s: &str) -> (r: Result<Vec<CredentialRecord>, LoadUsersError>)
    ensures
        match r {
            Ok(v) => decode_spec(s@) == Ok::<_, LoadFault>(records_view(v@)),
            Err(e) => decode_spec(s@) == Err::<Seq<(Seq<char>, Seq<char>)>, _>(e.fault()),
        },
{
    let chars = chars_of(s);
    let n = chars.len();
    let mut out: Vec<CredentialRecord> = Vec::new();
    let mut pos: usize = 0;
    assert(chars@.skip(0) =~= chars@);
    assert(records_view(out@) =~= Seq::<(Seq<char>, Seq<char>)>::empty());
    while pos < n
        invariant
            n == chars@.len(),
            chars@ == s@,
            pos <= n,
            decode_spec(s@) == prepend(records_view(out@), decode_spec(chars@.skip(pos as int))),
        decreases n - pos,
    {
        let ghost rest = chars@.skip(pos as int);
        match read_record(&chars, pos) {
            Ok((rec, next)) => {
                let ghost acc = records_view(out@);
                let ghost item = rec@;
                assert(rest.skip(next - pos) =~= chars@.skip(next as int));
                out.push(rec);
                assert(records_view(out@) =~= acc + seq![item]);
                assert(acc + (seq![item] + Seq::<(Seq<char>, Seq<char>)>::empty()) =~= acc + seq![item]);
                proof {
                    if let Ok(rs) = decode_spec(chars@.skip(next as int)) {
                        assert(acc + (seq![item] + rs) =~= (acc + seq![item]) + rs);
                    }
                }
                pos = next;
            },
            Err(e) => {
                return Err(e);
            },
        }
    }
    assert(chars@.skip(pos as int) =~= Seq::<char>::empty());
    assert(records_view(out@) + Seq::<(Seq<char>, Seq<char>)>::empty() =~= records_view(out@));
    Ok(out)
}


/// The line that stores `name` with `hash`: the separator, the name, the
/// separator, the hash's length in characters, the hash and a newline.
pub fn encode_record(name: &str, hash: &str) -> (r: String)
    ensures
        r@ == encode_spec(name@, hash@),
{
    let mut out = String::new();
    push_char(&mut out, SEP);
    out.append(name);
    push_char(&mut out, SEP);
    let len = hash.unicode_len();
    write_decimal(len as u64, &mut out);
    out.append(hash);
    push_char(&mut out, ENTRY_SEP);
    assert(out@ =~= encode_spec(name@, hash@));
    out
}

/// The text to append to a credentials file that ends with `last` (`None`:
/// an empty file) so that `line` starts a record of its own: a newline goes
/// first where the file's last record was left without one.
pub fn text_to_append(last: Option<char>, line: &str) -> (r: String)
    ensures
        r@ == match last {
            Some(c) => if c != ENTRY_SEP {
                seq![ENTRY_SEP] + line@
            } else {
                line@
            },
            None => line@,
        },
{
    let mut out = String::new();
    match last {
        Some(c) => {
            if c != ENTRY_SEP {
                push_char(&mut out, ENTRY_SEP);
            }
        },
        None => {},
    }
    out.append(line);
    assert(out@ =~= match last {
        Some(c) => if c != ENTRY_SEP {
            seq![ENTRY_SEP] + line@
        } else {
            line@
        },
        None => line@,
    });
    out
}

/// A stored line, followed by anything, reads back as its record, and the
/// reader resumes right after the line.
proof fn lemma_record_prefix_of_encoding(name: Seq<char>, hash: Seq<char>, rest: Seq<char>)
    requires
        record_ok((name, hash)),
    ensures
        record_prefix(encode_spec(name, hash) + rest) == Ok::<_, LoadFault>(
            (name, hash, encode_spec(name, hash).len() as int),
        ),
{
    let d = decimal(hash.len());
    lemma_decimal_reads_back(hash.len());
    let line = encode_spec(name, hash);
    let s = line + rest;
    let nl = name.len() as int;
    let dl = d.len() as int;
    let hl = hash.len() as int;
    let j = 1 + nl;
    let k = j + 1 + dl;
    let e = k + hl;
    assert(line.len() == e + 1);
    assert(s.len() == line.len() + rest.len());
    assert(s[0] == SEP);
    assert forall|x: int| 0 <= x < nl implies s[1 + x] == name[x] by {
        assert(s[1 + x] == line[1 + x]);
    }
    assert(s[j] == SEP) by {
        assert(s[j] == line[j]);
    }
    assert forall|x: int| 0 <= x < dl implies s[j + 1 + x] == d[x] by {
        assert(s[j + 1 + x] == line[j + 1 + x]);
    }
    assert forall|x: int| 0 <= x < hl implies s[k + x] == hash[x] by {
        assert(s[k + x] == line[k + x]);
    }
    assert(s[e] == ENTRY_SEP) by {
        assert(s[e] == line[e]);
    }
    // The name ends at the separator after it.
    let u = s.drop_first();
    assert forall|x: int| 0 <= x < nl implies name_char_allowed(#[trigger] u[x]) by {
        assert(u[x] == s[1 + x]);
    }
    assert(u[nl] == s[j]);
    lemma_name_span(u, nl);
    // The length ends at the separator that opens the hash.
    let w = s.skip(j + 1);
    assert forall|x: int| 0 <= x < dl implies #[trigger] w[x] != SEP by {
        assert(w[x] == s[j + 1 + x]);
        assert(is_digit(d[x]));
    }
    assert(w[dl] == s[k]);
    assert(s[k] == hash[0]);
    lemma_field_span(w, dl);
    assert(s.subrange(j + 1, k) =~= d);
    assert(s.subrange(k, e) =~= hash);
    assert(s.subrange(1, j) =~= name);
}

/// Lines of records that the format can hold read back as those records,
/// whatever follows them: the reader then goes on with what follows.
pub proof fn lemma_decode_encode_all(rs: Seq<(Seq<char>, Seq<char>)>, tail: Seq<char>)
    requires
        forall|i: int| 0 <= i < rs.len() ==> record_ok(#[trigger] rs[i]),
    ensures
        decode_spec(encode_all(rs) + tail) == prepend(rs, decode_spec(tail)),
    decreases rs.len(),
{
    if rs.len() == 0 {
        assert(encode_all(rs) + tail =~= tail);
        assert(rs =~= Seq::<(Seq<char>, Seq<char>)>::empty());
        if let Ok(x) = decode_spec(tail) {
            assert(rs + x =~= x);
        }
    } else {
        let rest = rs.drop_first();
        assert forall|i: int| 0 <= i < rest.len() implies record_ok(#[trigger] rest[i]) by {
            assert(rest[i] == rs[i + 1]);
        }
        lemma_decode_encode_all(rest, tail);
        let line = encode_spec(rs[0].0, rs[0].1);
        let after = encode_all(rest) + tail;
        let s = encode_all(rs) + tail;
        assert(s =~= line + after);
        assert(record_ok(rs[0]));
        lemma_record_prefix_of_encoding(rs[0].0, rs[0].1, after);
        assert(s.skip(line.len() as int) =~= after);
        assert(s.len() > 0);
        assert(record_prefix(s) == Ok::<_, LoadFault>((rs[0].0, rs[0].1, line.len() as int)));
        assert(decode_spec(s) == prepend(seq![(rs[0].0, rs[0].1)], decode_spec(after)));
        assert(seq![(rs[0].0, rs[0].1)] + rest =~= rs);
        if let Ok(x) = decode_spec(tail) {
            assert(seq![(rs[0].0, rs[0].1)] + (rest + x) =~= rs + x);
        }
    }
}

/// A whole file of such lines reads back as exactly its records.
pub proof fn lemma_decode_file(rs: Seq<(Seq<char>, Seq<char>)>)
    requires
        forall|i: int| 0 <= i < rs.len() ==> record_ok(#[trigger] rs[i]),
    ensures
        decode_spec(encode_all(rs)) == Ok::<_, LoadFault>(rs),
{
    lemma_decode_encode_all(rs, Seq::empty());
    assert(encode_all(rs) + Seq::<char>::empty() =~= encode_all(rs));
    assert(rs + Seq::<(Seq<char>, Seq<char>)>::empty() =~= rs);
}

/// A record whose declared hash length runs past the end of the input fails
/// the whole file with `IncompleteHash`, whatever well-formed records come
/// before it.
pub proof fn lemma_truncated_hash(
    rs: Seq<(Seq<char>, Seq<char>)>,
    name: Seq<char>,
    len: nat,
    rest: Seq<char>,
)
    requires
        forall|i: int| 0 <= i < rs.len() ==> record_ok(#[trigger] rs[i]),
        valid_username(name),
        rest.len() > 0,
        rest[0] == SEP,
        len > rest.len(),
    ensures
        decode_spec(encode_all(rs) + (seq![SEP] + name + seq![SEP] + decimal(len) + rest))
            == Err::<Seq<(Seq<char>, Seq<char>)>, _>(LoadFault::IncompleteHash),
{
    let s = seq![SEP] + name + seq![SEP] + decimal(len) + rest;
    lemma_decode_encode_all(rs, s);
    let d = decimal(len);
    lemma_decimal_reads_back(len);
    let nl = name.len() as int;
    let dl = d.len() as int;
    let j = 1 + nl;
    let k = j + 1 + dl;
    assert(s.len() == k + rest.len());
    let u = s.drop_first();
    assert forall|x: int| 0 <= x < nl implies name_char_allowed(#[trigger] u[x]) by {
        assert(u[x] == name[x]);
    }
    assert(u[nl] == SEP);
    lemma_name_span(u, nl);
    let w = s.skip(j + 1);
    assert forall|x: int| 0 <= x < dl implies #[trigger] w[x] != SEP by {
        assert(w[x] == d[x]);
        assert(is_digit(d[x]));
    }
    assert(w[dl] == rest[0]);
    lemma_field_span(w, dl);
    assert(s.subrange(j + 1, k) =~= d);
    assert(record_prefix(s) == Err::<(Seq<char>, Seq<char>, int), _>(LoadFault::IncompleteHash));
}

/// Encoding a record, reading the line back and encoding what was read gives
/// the same line: the line holds the hash character for character.
pub proof fn lemma_round_trip(name: Seq<char>, hash: Seq<char>)
    requires
        valid_username(name),
        storable_hash(hash),
    ensures
        decode_spec(encode_spec(name, hash)) == Ok::<_, LoadFault>(seq![(name, hash)]),
        encode_all(seq![(name, hash)]) == encode_spec(name, hash),
{
    let rs = seq![(name, hash)];
    assert(record_ok(rs[0]));
    lemma_decode_file(rs);
    assert(rs.drop_first() =~= Seq::<(Seq<char>, Seq<char>)>::empty());
    assert(encode_all(rs.drop_first()) == Seq::<char>::empty());
    assert(encode_all(rs) =~= encode_spec(name, hash));
}


proof fn lemma_name_span_allowed(t: Seq<char>)
    ensures
        name_span(t) <= t.len(),
        forall|x: int| 0 <= x < name_span(t) ==> name_char_allowed(#[trigger] t[x]),
    decreases t.len(),
{
    if t.len() > 0 && name_char_allowed(t[0]) {
        let u = t.drop_first();
        lemma_name_span_allowed(u);
        assert forall|x: int| 0 <= x < name_span(t) implies name_char_allowed(#[trigger] t[x]) by {
            if x > 0 {
                assert(t[x] == u[x - 1]);
            }
        }
    }
}

proof fn lemma_field_span_stop(t: Seq<char>)
    ensures
        field_span(t) <= t.len(),
        field_span(t) < t.len() ==> t[field_span(t) as int] == SEP,
    decreases t.len(),
{
    if t.len() > 0 && t[0] != SEP {
        let u = t.drop_first();
        lemma_field_span_stop(u);
        if field_span(t) < t.len() {
            assert(t[field_span(t) as int] == u[field_span(u) as int]);
        }
    }
}

/// Every record that a file reads as can be stored and written back.
pub proof fn lemma_decoded_records_ok(s: Seq<char>)
    ensures
        decode_spec(s) matches Ok(rs) ==> forall|i: int| 0 <= i < rs.len() ==> record_ok(#[trigger] rs[i]),
    decreases s.len(),
{
    if s.len() > 0 {
        if let Ok((name, hash, used)) = record_prefix(s) {
            if 0 < used <= s.len() {
                let j: int = 1 + name_span(s.drop_first()) as int;
                let k: int = j + 1 + field_span(s.skip(j + 1)) as int;
                lemma_name_span_allowed(s.drop_first());
                lemma_field_span_stop(s.skip(j + 1));
                assert(valid_username(name)) by {
                    assert forall|x: int| 0 <= x < name.len() implies name_char_allowed(#[trigger] name[x]) by {
                        assert(name[x] == s.drop_first()[x]);
                    }
                }
                assert(hash[0] == s[k]);
                assert(s.skip(j + 1)[field_span(s.skip(j + 1)) as int] == s[k]);
                lemma_decoded_records_ok(s.skip(used));
                if let Ok(rs) = decode_spec(s) {
                    let rest = decode_spec(s.skip(used))->Ok_0;
                    assert(rs == seq![(name, hash)] + rest);
                    assert forall|i: int| 0 <= i < rs.len() implies record_ok(#[trigger] rs[i]) by {
                        if i > 0 {
                            assert(rs[i] == rest[i - 1]);
                        }
                    }
                }
            }
        }
    }
}

} // verus!
