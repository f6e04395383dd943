//! Password records: one line per user, the password stored as a salted
//! PBKDF2-SHA256 hash, salt and hash in base64.

use vstd::prelude::*;
use crate::error::{Error, ErrorKind};
use crate::topic::str_eq;

verus! {

/// The key PBKDF2 with HMAC-SHA256 derives from a password, a salt and a
/// round count; thirty-two bytes, a function of its arguments alone.
pub uninterp spec fn pbkdf2_sha256(password: Seq<u8>, salt: Seq<u8>, rounds: u32) -> Seq<u8>;

/// What standard base64 decoding yields on a string, or nothing when the
/// string is not valid base64.
pub uninterp spec fn base64_decoding(s: Seq<char>) -> Option<Seq<u8>>;

/// Relies on pbkdf2::pbkdf2_hmac with sha2::Sha256: it fills the output
/// buffer, here thirty-two bytes, from the password, salt and round count
/// alone.
#[verifier::external_body]
fn derive_pbkdf2_sha256(password: &[u8], salt: &[u8], rounds: u32) -> (r: Vec<u8>)
    ensures
        r@ == pbkdf2_sha256(password@, salt@, rounds),
        r@.len() == 32,
{
    let mut buf = vec![0u8; 32];
    pbkdf2::pbkdf2_hmac::<sha2::Sha256>(password, salt, rounds, &mut buf);
    buf
}

/// Relies on the base64 crate's STANDARD engine: decode succeeds exactly
/// on valid base64 and its result depends on the input alone.
#[verifier::external_body]
fn base64_decode(s: &str) -> (r: Option<Vec<u8>>)
    ensures
        (match r {
            Some(v) => base64_decoding(s@) == Some(v@),
            None => base64_decoding(s@) is None,
        }),
{
    base64::Engine::decode(&base64::engine::general_purpose::STANDARD, s.as_bytes()).ok()
}

/// The value of a decimal digit string, most significant digit first.
pub open spec fn spec_decimal(s: Seq<char>) -> int
    decreases s.len(),
{
    if s.len() == 0 {
        0
    } else {
        spec_decimal(s.drop_last()) * 10 + (s.last() as int - '0' as int)
    }
}

/// Whether every character is a decimal digit.
pub open spec fn spec_all_digits(s: Seq<char>) -> bool {
    forall|i: int| 0 <= i < s.len() ==> '0' <= #[trigger] s[i] && s[i] <= '9'
}

/// A longer digit string never has a smaller value.
proof fn lemma_decimal_monotone(s: Seq<char>, i: int)
    requires
        0 <= i <= s.len(),
        spec_all_digits(s),
    ensures
        spec_decimal(s) >= spec_decimal(s.take(i)),
        spec_decimal(s.take(i)) >= 0,
    decreases s.len() - i,
{
    if i == s.len() {
        assert(s.take(i) =~= s);
        lemma_decimal_nonneg(s);
    } else {
        lemma_decimal_monotone(s, i + 1);
        assert(s.take(i + 1).drop_last() =~= s.take(i));
        assert(s.take(i + 1).last() == s[i]);
        lemma_decimal_nonneg(s.take(i));
    }
}

/// A digit string's value is never negative.
proof fn lemma_decimal_nonneg(s: Seq<char>)
    requires
        spec_all_digits(s),
    ensures
        spec_decimal(s) >= 0,
    decreases s.len(),
{
    if s.len() > 0 {
        assert(spec_all_digits(s.drop_last())) by {
            assert(forall|i: int| 0 <= i < s.len() - 1 ==> s.drop_last()[i] == s[i]);
        }
        lemma_decimal_nonneg(s.drop_last());
    }
}

/// Parse a decimal number: at least one digit, nothing else, and a value
/// that fits in 32 bits.
pub fn parse_u32(s: &str) -> (r: Option<u32>)
    ensures
        r is Some <==> (s@.len() >= 1 && spec_all_digits(s@) && spec_decimal(s@) <= u32::MAX),
        r matches Some(v) ==> v == spec_decimal(s@),
{
    let n = s.unicode_len();
    if n == 0 {
        return None;
    }
    let mut value: u64 = 0;
    let mut i: usize = 0;
    while i < n
        invariant
            0 <= i <= n,
            n == s@.len(),
            spec_all_digits(s@.take(i as int)),
            value == spec_decimal(s@.take(i as int)),
            value <= u32::MAX,
        decreases n - i,
    {
        let c = s.get_char(i);
        if !('0' <= c && c <= '9') {
            proof {
                if spec_all_digits(s@) {
                    assert('0' <= s@[i as int] && s@[i as int] <= '9');
                }
            }
            return None;
        }
        let d: u64 = (c as u32 as u64) - ('0' as u32 as u64);
        proof {
            assert(s@.take(i + 1).drop_last() =~= s@.take(i as int));
            assert(s@.take(i + 1).last() == s@[i as int]);
        }
        let next = value * 10 + d;
        if next > u32::MAX as u64 {
            proof {
                assert(spec_decimal(s@.take(i + 1)) == next);
                if s@.len() >= 1 && spec_all_digits(s@) && spec_decimal(s@) <= u32::MAX {
                    lemma_decimal_monotone(s@, i + 1);
                }
            }
            return None;
        }
        value = next;
        i += 1;
    }
    proof {
        assert(s@.take(n as int) =~= s@);
    }
    Some(value as u32)
}

/// One user's stored credential: the PBKDF2-SHA256 parameters and hash.
#[derive(Debug)]
pub struct Password {
    iterations: u32,
    salt: Vec<u8>,
    hash: Vec<u8>,
}

impl Password {
    /// The round count of the stored hash.
    pub closed spec fn spec_iterations(&self) -> u32 {
        self.iterations
    }

    /// The salt of the stored hash.
    pub closed spec fn spec_salt(&self) -> Seq<u8> {
        self.salt@
    }

    /// The stored hash.
    pub closed spec fn spec_hash(&self) -> Seq<u8> {
        self.hash@
    }

    /// Whether `password` is the stored one: its derived key equals the
    /// stored hash.
    pub open spec fn spec_check(&self, password: Seq<u8>) -> bool {
        pbkdf2_sha256(password, self.spec_salt(), self.spec_iterations()) == self.spec_hash()
    }

    /// Build a credential from its parts.
    pub fn new(iterations: u32, salt: Vec<u8>, hash: Vec<u8>) -> (r: Password)
        ensures
            r.spec_iterations() == iterations,
            r.spec_salt() == salt@,
            r.spec_hash() == hash@,
    {
        Password { iterations, salt, hash }
    }

    /// Check a password against the stored hash.
    pub fn is_match(&self, password: &[u8]) -> (r: bool)
        ensures
            r == self.spec_check(password@),
    {
        let derived = derive_pbkdf2_sha256(password, self.salt.as_slice(), self.iterations);
        bytes_eq(derived.as_slice(), self.hash.as_slice())
    }

    /// Parse one password-file line.  Blank lines and lines starting with
    /// `#` carry no record; any other line must read
    /// `user:pbkdf2-sha256$rounds$salt$hash` with salt and hash in base64.
    pub fn parse(line: &str) -> (r: Result<Option<(String, Password)>, Error>)
        ensures
            (match r {
                Ok(o) => (o is None <==> (line@.len() == 0 || line@[0] == '#')) && (
                o matches Some((u, p)) ==> u@.len() > 0 && !u@.contains(':')),
                Err(_) => line@.len() > 0 && line@[0] != '#',
            }),
    {
        let n = line.unicode_len();
        if n == 0 {
            return Ok(None);
        }
        if line.get_char(0) == '#' {
            return Ok(None);
        }
        let colon = match find_char(line, ':') {
            Some(i) => i,
            None => {
                return Err(Error::new(ErrorKind::ParameterError, "missing colon"));
            },
        };
        if colon == 0 {
            return Err(Error::new(ErrorKind::ParameterError, "empty username"));
        }
        let username = line.substring_char(0, colon).to_owned();
        let rest = line.substring_char(colon + 1, n);
        let fields = crate::topic::split_str_on(rest, '$');
        if fields.len() != 4 {
            return Err(Error::new(ErrorKind::ParameterError, "malformed password field"));
        }
        if !str_eq(fields[0].as_str(), "pbkdf2-sha256") {
            return Err(Error::new(ErrorKind::ParameterError, "unsupported algorithm"));
        }
        let iterations = match parse_u32(fields[1].as_str()) {
            Some(v) => v,
            None => {
                return Err(Error::new(ErrorKind::ParameterError, "bad round count"));
            },
        };
        let salt = match base64_decode(fields[2].as_str()) {
            Some(v) => v,
            None => {
                return Err(Error::new(ErrorKind::ParameterError, "bad salt"));
            },
        };
        let hash = match base64_decode(fields[3].as_str()) {
            Some(v) => v,
            None => {
                return Err(Error::new(ErrorKind::ParameterError, "bad hash"));
            },
        };
        proof {
            assert(username@.contains(':') ==> false) by {
                if username@.contains(':') {
                    let k = choose|k: int|
                        0 <= k < username@.len() && username@[k] == ':';
                }
            }
        }
        Ok(Some((username, Password { iterations, salt, hash })))
    }
}

/// Find the first occurrence of `c`, scanning from the start.
pub fn find_char(s: &str, c: char) -> (r: Option<usize>)
    ensures
        r matches Some(i) ==> i < s@.len() && s@[i as int] == c && (forall|j: int|
            0 <= j < i ==> s@[j] != c),
        r is None ==> forall|j: int| 0 <= j < s@.len() ==> s@[j] != c,
{
    let n = s.unicode_len();
    let mut i: usize = 0;
    while i < n
        invariant
            0 <= i <= n,
            n == s@.len(),
            forall|j: int| 0 <= j < i ==> s@[j] != c,
        decreases n - i,
    {
        if s.get_char(i) == c {
            return Some(i);
        }
        i += 1;
    }
    None
}

/// Compare two byte strings for equality.
pub fn bytes_eq(a: &[u8], b: &[u8]) -> (r: bool)
    ensures
        r == (a@ == b@),
{
    if a.len() != b.len() {
        return false;
    }
    let mut i: usize = 0;
    while i < a.len()
        invariant
            0 <= i <= a@.len(),
            a@.len() == b@.len(),
            forall|j: int| 0 <= j < i ==> a@[j] == b@[j],
        decreases a@.len() - i,
    {
        if a[i] != b[i] {
            return false;
        }
        i += 1;
    }
    proof {
        assert(a@ =~= b@);
    }
    true
}

/// The records of one password file, unique by username.
#[derive(Debug)]
pub struct FileAuth {
    records: Vec<(String, Password)>,
}

impl FileAuth {
    /// The stored records.
    pub closed spec fn spec_records(&self) -> Seq<(String, Password)> {
        self.records@
    }

    /// At most one record per username.
    pub open spec fn wf(&self) -> bool {
        forall|i: int, j: int|
            0 <= i < j < self.spec_records().len() ==> (#[trigger] self.spec_records()[i]).0@ != (
            #[trigger] self.spec_records()[j]).0@
    }

    /// Whether the named user's stored credential accepts `password`;
    /// false for a user without a record.
    pub open spec fn spec_is_match(&self, username: Seq<char>, password: Seq<u8>) -> bool {
        exists|i: int|
            0 <= i < self.spec_records().len() && (#[trigger] self.spec_records()[i]).0@
                == username && self.spec_records()[i].1.spec_check(password)
    }

    /// An empty record set.
    pub fn new() -> (r: FileAuth)
        ensures
            r.wf(),
            r.spec_records().len() == 0,
    {
        FileAuth { records: Vec::new() }
    }

    /// Parse password-file lines into records; lines that carry no record
    /// or do not parse are skipped, and a later record for a username
    /// replaces an earlier one.
    pub fn from_lines(lines: &Vec<String>) -> (r: FileAuth)
        ensures
            r.wf(),
    {
        let mut auth = FileAuth { records: Vec::new() };
        let mut i: usize = 0;
        while i < lines.len()
            invariant
                auth.wf(),
            decreases lines@.len() - i,
        {
            match Password::parse(lines[i].as_str()) {
                Ok(Some((username, password))) => {
                    auth.insert(username, password);
                },
                Ok(None) => {},
                Err(_) => {},
            }
            i += 1;
        }
        auth
    }

    /// Add one record, replacing any earlier one for the same username.
    pub fn insert(&mut self, username: String, password: Password)
        requires
            old(self).wf(),
        ensures
            final(self).wf(),
    {
        let mut i: usize = 0;
        let n = self.records.len();
        let mut found: Option<usize> = None;
        while i < n
            invariant
                0 <= i <= n,
                n == self.spec_records().len(),
                old(self).wf(),
                *self == *old(self),
                (match found {
                    Some(k) => k < i && self.spec_records()[k as int].0@ == username@,
                    None => forall|j: int|
                        0 <= j < i ==> (#[trigger] self.spec_records()[j]).0@ != username@,
                }),
            decreases n - i,
        {
            if found.is_none() && str_eq(self.records[i].0.as_str(), username.as_str()) {
                found = Some(i);
            }
            i += 1;
        }
        match found {
            Some(k) => {
                proof {
                    lemma_remove_unique_records(self.spec_records(), k as int);
                }
                let _ = self.records.remove(k);
                proof {
                    assert(self.spec_records() =~= old(self).spec_records().remove(k as int));
                }
            },
            None => {},
        }
        let ghost mid = *self;
        let ghost uview = username@;
        self.records.push((username, password));
        proof {
            assert(self.spec_records().len() == mid.spec_records().len() + 1);
            assert(self.spec_records().last().0@ == uview);
            assert forall|j: int| 0 <= j < mid.spec_records().len() implies (
            #[trigger] self.spec_records()[j]) == mid.spec_records()[j] by {}
            assert forall|j: int| 0 <= j < mid.spec_records().len() implies (
            #[trigger] mid.spec_records()[j]).0@ != uview by {}
            assert forall|i2: int, j2: int|
                0 <= i2 < j2 < self.spec_records().len() implies (
            #[trigger] self.spec_records()[i2]).0@ != (#[trigger] self.spec_records()[j2]).0@ by {
                if j2 < self.spec_records().len() - 1 {
                    assert(self.spec_records()[i2] == mid.spec_records()[i2]);
                    assert(self.spec_records()[j2] == mid.spec_records()[j2]);
                } else {
                    assert(self.spec_records()[i2] == mid.spec_records()[i2]);
                }
            }
        }
    }

    /// Check whether the named user's stored credential accepts the
    /// password; a user without a record is refused.
    pub fn is_match(&self, username: &str, password: &[u8]) -> (r: bool)
        requires
            self.wf(),
        ensures
            r == self.spec_is_match(username@, password@),
    {
        let mut i: usize = 0;
        let n = self.records.len();
        while i < n
            invariant
                0 <= i <= n,
                n == self.spec_records().len(),
                self.wf(),
                forall|j: int|
                    0 <= j < i ==> (#[trigger] self.spec_records()[j]).0@ != username@,
            decreases n - i,
        {
            if str_eq(self.records[i].0.as_str(), username) {
                let ok = self.records[i].1.is_match(password);
                proof {
                    if ok {
                        assert(self.spec_is_match(username@, password@)) by {
                            assert(self.spec_records()[i as int].0@ == username@
                                && self.spec_records()[i as int].1.spec_check(password@));
                        }
                    } else {
                        if self.spec_is_match(username@, password@) {
                            let k = choose|k: int|
                                0 <= k < self.spec_records().len() && (
                                #[trigger] self.spec_records()[k]).0@ == username@
                                    && self.spec_records()[k].1.spec_check(password@);
                            assert(k == i);
                        }
                    }
                }
                return ok;
            }
            i += 1;
        }
        proof {
            if self.spec_is_match(username@, password@) {
                let k = choose|k: int|
                    0 <= k < self.spec_records().len() && (#[trigger] self.spec_records()[k]).0@
                        == username@ && self.spec_records()[k].1.spec_check(password@);
            }
        }
        false
    }
}

/// Removing one position from a record list with unique usernames keeps
/// the rest unique.
proof fn lemma_remove_unique_records(s: Seq<(String, Password)>, idx: int)
    requires
        0 <= idx < s.len(),
        forall|i: int, j: int| 0 <= i < j < s.len() ==> (#[trigger] s[i]).0@ != (
        #[trigger] s[j]).0@,
    ensures
        s.remove(idx).len() == s.len() - 1,
        forall|i: int, j: int|
            0 <= i < j < s.remove(idx).len() ==> (#[trigger] s.remove(idx)[i]).0@ != (
            #[trigger] s.remove(idx)[j]).0@,
        forall|k: int| 0 <= k < s.remove(idx).len() ==> (#[trigger] s.remove(idx)[k]).0@
            != s[idx].0@,
{
    let t = s.remove(idx);
    s.remove_ensures(idx);
    assert forall|k: int| 0 <= k < t.len() implies (#[trigger] t[k]).0@ != s[idx].0@ by {
        if k < idx {
            assert(t[k] == s[k]);
        } else {
            assert(t[k] == s[k + 1]);
        }
    }
    assert forall|i: int, j: int| 0 <= i < j < t.len() implies (#[trigger] t[i]).0@ != (
    #[trigger] t[j]).0@ by {
        let si: int = if i < idx {
            i
        } else {
            i + 1
        };
        let sj: int = if j < idx {
            j
        } else {
            j + 1
        };
        assert(t[i] == s[si]);
        assert(t[j] == s[sj]);
    }
}

} // verus!
