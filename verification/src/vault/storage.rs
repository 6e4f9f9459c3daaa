//! The vault file: its format, and the import of `.env` files.

use vstd::prelude::*;
use crate::vault::crypto::{
    CryptoError, NONCE_LEN, SALT_LEN, argon2id_hash, aes256gcm_seal, aes256gcm_open, derive_key, encrypt,
    decrypt, random_bytes, copy_bytes, concat_bytes,
};
use crate::vault::VarMap;
use crate::assoc::{StrMap, put, lookup, unique_keys, lemma_put};
use crate::text::{chars_of, trimmed, trim_bounds, string_of};

verus! {

/// Why the vault could not be read or written.
#[derive(Debug, Clone, Copy, PartialEq, Eq, Structural)]
pub enum StorageError {
    NotFound,
    ReadError,
    WriteError,
    Crypto(CryptoError),
}

/// The vault file: the salt, then the encrypted vault (nonce and ciphertext).
pub open spec fn vault_file(salt: Seq<u8>, body: Seq<u8>) -> Seq<u8> {
    salt + body
}

/// The salt and the encrypted vault in a vault file, when it is long enough.
pub open spec fn vault_file_parts(data: Seq<u8>) -> Option<(Seq<u8>, Seq<u8>)> {
    if data.len() < SALT_LEN {
        None
    } else {
        Some((data.take(SALT_LEN as int), data.skip(SALT_LEN as int)))
    }
}

/// Splitting a vault file gives back the salt and the body it was made of.
pub proof fn lemma_vault_file_parts(salt: Seq<u8>, body: Seq<u8>)
    requires
        salt.len() == SALT_LEN,
    ensures
        vault_file_parts(vault_file(salt, body)) == Some((salt, body)),
{
    assert((salt + body).take(SALT_LEN as int) =~= salt);
    assert((salt + body).skip(SALT_LEN as int) =~= body);
}

/// The bytes of the vault file for `salt` and the encrypted vault `body`.
pub fn join_vault_file(salt: &[u8], body: &[u8]) -> (r: Vec<u8>)
    ensures
        r@ == vault_file(salt@, body@),
{
    concat_bytes(salt, body)
}

/// Splits a vault file into its salt and the encrypted vault; a file shorter
/// than the salt is a read error.
pub fn split_vault_file(data: &[u8]) -> (r: Result<(Vec<u8>, Vec<u8>), StorageError>)
    ensures
        match r {
            Ok((salt, body)) => vault_file_parts(data@) == Some((salt@, body@)),
            Err(e) => vault_file_parts(data@) is None && e == StorageError::ReadError,
        },
{
    if data.len() < SALT_LEN {
        return Err(StorageError::ReadError);
    }
    let salt = copy_bytes(data, 0, SALT_LEN);
    let body = copy_bytes(data, SALT_LEN, data.len());
    assert(salt@ =~= data@.take(SALT_LEN as int));
    assert(body@ =~= data@.skip(SALT_LEN as int));
    Ok((salt, body))
}

/// What opening a vault file `data` with the password bytes `pw` gives: the
/// decrypted vault, or why it failed.
pub open spec fn opened(pw: Seq<u8>, data: Seq<u8>) -> Result<Seq<u8>, StorageError> {
    match vault_file_parts(data) {
        None => Err(StorageError::ReadError),
        Some((salt, body)) => match argon2id_hash(pw, salt) {
            None => Err(StorageError::Crypto(CryptoError::KeyDerivationFailed)),
            Some(k) => if body.len() < NONCE_LEN {
                Err(StorageError::Crypto(CryptoError::DecryptionFailed))
            } else {
                match aes256gcm_open(k, body.take(NONCE_LEN as int), body.skip(NONCE_LEN as int)) {
                    Some(p) => Ok(p),
                    None => Err(StorageError::Crypto(CryptoError::DecryptionFailed)),
                }
            },
        },
    }
}

/// Opens the vault file `data` with `password`: the salt at its start and the
/// password give the key, which decrypts the rest.
pub fn open_vault_data(password: &str, data: &[u8]) -> (r: Result<Vec<u8>, StorageError>)
    ensures
        match r {
            Ok(p) => opened(vstd::utf8::encode_utf8(password@), data@) == Ok::<Seq<u8>, StorageError>(p@),
            Err(e) => opened(vstd::utf8::encode_utf8(password@), data@) == Err::<Seq<u8>, StorageError>(e),
        },
{
    let (salt, body) = match split_vault_file(data) {
        Ok(parts) => parts,
        Err(e) => return Err(e),
    };
    let key = match derive_key(password.as_bytes(), salt.as_slice()) {
        Ok(k) => k,
        Err(e) => return Err(StorageError::Crypto(e)),
    };
    match decrypt(key.as_slice(), body.as_slice()) {
        Ok(p) => Ok(p),
        Err(e) => Err(StorageError::Crypto(e)),
    }
}

/// `d` is a vault file for password bytes `pw` and salt `salt` whose body is
/// `plaintext` encrypted under some nonce, and whose ciphertext decrypts under
/// the same key and nonce to `plaintext`.
pub open spec fn sealed_as(pw: Seq<u8>, salt: Seq<u8>, plaintext: Seq<u8>, d: Seq<u8>) -> bool {
    &&& argon2id_hash(pw, salt) is Some
    &&& d.len() >= salt.len() + NONCE_LEN
    &&& d.take(salt.len() as int) == salt
    &&& aes256gcm_seal(
        argon2id_hash(pw, salt)->Some_0,
        d.subrange(salt.len() as int, salt.len() + NONCE_LEN),
        plaintext,
    ) == Some(d.skip(salt.len() + NONCE_LEN))
    &&& aes256gcm_open(
        argon2id_hash(pw, salt)->Some_0,
        d.subrange(salt.len() as int, salt.len() + NONCE_LEN),
        d.skip(salt.len() + NONCE_LEN),
    ) == Some(plaintext)
}

/// Encrypts the vault contents `plaintext` with `password` under `salt` and a
/// fresh nonce, and returns the bytes of the vault file, which open with the
/// same password to `plaintext`.
pub fn seal_vault_data(password: &str, salt: &[u8], plaintext: &[u8]) -> (r: Result<Vec<u8>, StorageError>)
    requires
        salt@.len() == SALT_LEN,
    ensures
        match r {
            Ok(d) => sealed_as(vstd::utf8::encode_utf8(password@), salt@, plaintext@, d@) && opened(
                vstd::utf8::encode_utf8(password@),
                d@,
            ) == Ok::<Seq<u8>, StorageError>(plaintext@),
            Err(e) => if argon2id_hash(vstd::utf8::encode_utf8(password@), salt@) is None {
                e == StorageError::Crypto(CryptoError::KeyDerivationFailed)
            } else {
                e == StorageError::Crypto(CryptoError::EncryptionFailed)
            },
        },
{
    let key = match derive_key(password.as_bytes(), salt) {
        Ok(k) => k,
        Err(e) => return Err(StorageError::Crypto(e)),
    };
    let body = match encrypt(key.as_slice(), plaintext) {
        Ok(c) => c,
        Err(e) => return Err(StorageError::Crypto(e)),
    };
    let d = join_vault_file(salt, body.as_slice());
    proof {
        let n = salt@.len();
        assert(d@.take(n as int) =~= salt@);
        assert(d@.subrange(n as int, n + NONCE_LEN) =~= body@.take(NONCE_LEN as int));
        assert(d@.skip(n + NONCE_LEN) =~= body@.skip(NONCE_LEN as int));
        lemma_open_sealed(vstd::utf8::encode_utf8(password@), salt@, plaintext@, d@);
    }
    Ok(d)
}

/// Returns the bytes of a new vault file for the vault contents `plaintext`,
/// under a fresh random salt; they open with the same password to `plaintext`.
/// A failing random source is a write error.
pub fn create_vault_data(password: &str, plaintext: &[u8]) -> (r: Result<Vec<u8>, StorageError>)
    ensures
        match r {
            Ok(d) => d@.len() >= SALT_LEN && sealed_as(
                vstd::utf8::encode_utf8(password@),
                d@.take(SALT_LEN as int),
                plaintext@,
                d@,
            ) && opened(vstd::utf8::encode_utf8(password@), d@) == Ok::<Seq<u8>, StorageError>(
                plaintext@,
            ),
            Err(e) => e == StorageError::WriteError || e == StorageError::Crypto(
                CryptoError::KeyDerivationFailed,
            ) || e == StorageError::Crypto(CryptoError::EncryptionFailed),
        },
{
    match random_bytes(SALT_LEN) {
        Some(salt) => seal_vault_data(password, salt.as_slice(), plaintext),
        None => Err(StorageError::WriteError),
    }
}

/// Returns the bytes of the vault file anew for the vault contents `plaintext`,
/// keeping the salt of the current file `current`; they open with the same
/// password to `plaintext`.
pub fn reseal_vault_data(password: &str, current: &[u8], plaintext: &[u8]) -> (r: Result<Vec<u8>, StorageError>)
    ensures
        match vault_file_parts(current@) {
            None => r == Err::<Vec<u8>, StorageError>(StorageError::ReadError),
            Some((salt, _)) => match r {
                Ok(d) => sealed_as(vstd::utf8::encode_utf8(password@), salt, plaintext@, d@) && opened(
                    vstd::utf8::encode_utf8(password@),
                    d@,
                ) == Ok::<Seq<u8>, StorageError>(plaintext@),
                Err(e) => if argon2id_hash(vstd::utf8::encode_utf8(password@), salt) is None {
                    e == StorageError::Crypto(CryptoError::KeyDerivationFailed)
                } else {
                    e == StorageError::Crypto(CryptoError::EncryptionFailed)
                },
            },
        },
{
    match split_vault_file(current) {
        Ok((salt, _)) => seal_vault_data(password, salt.as_slice(), plaintext),
        Err(e) => Err(e),
    }
}

/// Opening a vault file that sealing wrote decrypts, with the same key and
/// nonce, exactly the ciphertext that sealing produced, and gives back the
/// plaintext that was sealed.
pub proof fn lemma_open_sealed(pw: Seq<u8>, salt: Seq<u8>, plaintext: Seq<u8>, d: Seq<u8>)
    requires
        salt.len() == SALT_LEN,
        sealed_as(pw, salt, plaintext, d),
    ensures
        ({
            let k = argon2id_hash(pw, salt)->Some_0;
            let nonce = d.subrange(SALT_LEN as int, SALT_LEN + NONCE_LEN);
            let c = d.skip(SALT_LEN + NONCE_LEN);
            &&& aes256gcm_seal(k, nonce, plaintext) == Some(c)
            &&& opened(pw, d) == match aes256gcm_open(k, nonce, c) {
                Some(p) => Ok::<Seq<u8>, StorageError>(p),
                None => Err(StorageError::Crypto(CryptoError::DecryptionFailed)),
            }
            &&& opened(pw, d) == Ok::<Seq<u8>, StorageError>(plaintext)
        }),
{
    let body = d.skip(SALT_LEN as int);
    assert(body.take(NONCE_LEN as int) =~= d.subrange(SALT_LEN as int, SALT_LEN + NONCE_LEN));
    assert(body.skip(NONCE_LEN as int) =~= d.skip(SALT_LEN + NONCE_LEN));
}

/// The lines of `s`: the pieces between its `'\n'` characters (a final empty
/// piece when `s` ends with one).
pub open spec fn split_lines(s: Seq<char>) -> Seq<Seq<char>>
    decreases s.len(),
{
    if s.len() == 0 {
        seq![Seq::<char>::empty()]
    } else {
        let ls = split_lines(s.drop_last());
        if s.last() == '\n' {
            ls.push(Seq::<char>::empty())
        } else {
            ls.drop_last().push(ls.last().push(s.last()))
        }
    }
}

/// The position of the first `'='` in `t`.
pub open spec fn first_eq(t: Seq<char>) -> Option<int>
    decreases t.len(),
{
    if t.len() == 0 {
        None
    } else {
        match first_eq(t.drop_last()) {
            Some(i) => Some(i),
            None => if t.last() == '=' {
                Some(t.len() - 1)
            } else {
                None
            },
        }
    }
}

/// The variables after reading one line of a `.env` file: blank lines and
/// lines starting with `#` (after trimming) are skipped, and so are lines
/// without `=`; otherwise the trimmed text before the first `=` is bound to
/// the trimmed text after it.
pub open spec fn env_line(acc: Seq<(Seq<char>, Seq<char>)>, line: Seq<char>) -> Seq<(Seq<char>, Seq<char>)> {
    let t = trimmed(line);
    if t.len() == 0 || t[0] == '#' {
        acc
    } else {
        match first_eq(t) {
            Some(p) => put(acc, trimmed(t.take(p)), trimmed(t.skip(p + 1))),
            None => acc,
        }
    }
}

/// The variables read from the lines `ls`, in order.
pub open spec fn env_lines(ls: Seq<Seq<char>>) -> Seq<(Seq<char>, Seq<char>)>
    decreases ls.len(),
{
    if ls.len() == 0 {
        Seq::empty()
    } else {
        env_line(env_lines(ls.drop_last()), ls.last())
    }
}

/// The variables that a `.env` file with text `s` defines.
pub open spec fn env_vars(s: Seq<char>) -> Seq<(Seq<char>, Seq<char>)> {
    env_lines(split_lines(s))
}

/// Reading `.env` lines never binds a name twice, and a line `NAME=value`
/// read last decides the value of `NAME`.
pub proof fn lemma_env_lines(ls: Seq<Seq<char>>)
    ensures
        unique_keys(env_lines(ls)),
        ls.len() > 0 ==> ({
            let t = trimmed(ls.last());
            t.len() > 0 && t[0] != '#' && first_eq(t) is Some ==> {
                let p = first_eq(t)->Some_0;
                lookup(env_lines(ls), trimmed(t.take(p))) == Some(trimmed(t.skip(p + 1)))
            }
        }),
    decreases ls.len(),
{
    if ls.len() > 0 {
        lemma_env_lines(ls.drop_last());
        let t = trimmed(ls.last());
        if t.len() > 0 && t[0] != '#' && first_eq(t) is Some {
            let p = first_eq(t)->Some_0;
            lemma_put(env_lines(ls.drop_last()), trimmed(t.take(p)), trimmed(t.skip(p + 1)));
        }
    }
}

/// A line that binds nothing, because it is blank, a `#` comment or has no
/// `=`, leaves every variable read before it as it was.
pub proof fn lemma_env_skip_line(ls: Seq<Seq<char>>, l: Seq<char>)
    requires
        trimmed(l).len() == 0 || trimmed(l)[0] == '#' || !trimmed(l).contains('='),
    ensures
        env_lines(ls.push(l)) == env_lines(ls),
{
    assert(ls.push(l).drop_last() =~= ls);
    let t = trimmed(l);
    lemma_first_eq(t);
    if !(t.len() == 0 || t[0] == '#') && first_eq(t) is Some {
        let k = first_eq(t)->Some_0;
        assert(t[k] == '=');
        assert(t.contains('='));
    }
}

/// Appending a line break and a line `l` to a text appends `l` to its lines.
pub proof fn lemma_split_lines_append(s: Seq<char>, l: Seq<char>)
    requires
        !l.contains('\n'),
    ensures
        split_lines(s.push('\n') + l) == split_lines(s).push(l),
    decreases l.len(),
{
    if l.len() == 0 {
        assert(s.push('\n') + l =~= s.push('\n'));
        assert(s.push('\n').drop_last() =~= s);
        assert(l =~= Seq::<char>::empty());
    } else {
        let l0 = l.drop_last();
        assert(!l0.contains('\n')) by {
            if l0.contains('\n') {
                let i = choose|i: int| 0 <= i < l0.len() && l0[i] == '\n';
                assert(l[i] == '\n');
            }
        }
        lemma_split_lines_append(s, l0);
        let t = s.push('\n') + l;
        assert(t.drop_last() =~= s.push('\n') + l0);
        assert(t.last() == l.last());
        assert(l.last() != '\n') by {
            assert(l[l.len() - 1] == l.last());
        }
        assert(split_lines(s).push(l0).drop_last() =~= split_lines(s));
        assert(l0.push(l.last()) =~= l);
        assert(split_lines(s).push(l0).last() == l0);
        assert(t.len() > 0);
        assert(split_lines(t) == split_lines(t.drop_last()).drop_last().push(
            split_lines(t.drop_last()).last().push(t.last()),
        ));
        assert(split_lines(t) =~= split_lines(s).push(l));
    }
}

/// Adding a blank line, a `#` comment or a line without `=` at the end of a
/// `.env` text changes none of the variables it defines.
pub proof fn lemma_env_vars_skip_line(s: Seq<char>, l: Seq<char>)
    requires
        !l.contains('\n'),
        trimmed(l).len() == 0 || trimmed(l)[0] == '#' || !trimmed(l).contains('='),
    ensures
        env_vars(s.push('\n') + l) == env_vars(s),
{
    lemma_split_lines_append(s, l);
    lemma_env_skip_line(split_lines(s), l);
}

proof fn lemma_split_lines_len(s: Seq<char>)
    ensures
        split_lines(s).len() >= 1,
    decreases s.len(),
{
    if s.len() > 0 {
        lemma_split_lines_len(s.drop_last());
    }
}

proof fn lemma_first_eq(t: Seq<char>)
    ensures
        match first_eq(t) {
            Some(k) => 0 <= k < t.len() && t[k] == '=' && forall|j: int| 0 <= j < k ==> t[j] != '=',
            None => forall|j: int| 0 <= j < t.len() ==> t[j] != '=',
        },
    decreases t.len(),
{
    if t.len() > 0 {
        lemma_first_eq(t.drop_last());
        assert forall|j: int| 0 <= j < t.len() - 1 implies t.drop_last()[j] == t[j] by {}
    }
}

/// Reads the line `v[start..end]` into `acc`.
fn read_env_line(acc: &mut VarMap, v: &Vec<char>, start: usize, end: usize)
    requires
        start <= end <= v.len(),
    ensures
        final(acc)@ == env_line(old(acc)@, v@.subrange(start as int, end as int)),
{
    let ghost line = v@.subrange(start as int, end as int);
    let (a, b) = trim_bounds(v, start, end);
    let ghost t = v@.subrange(a as int, b as int);
    assert(t == trimmed(line));
    if a == b || v[a] == '#' {
        assert(t.len() == 0 || t[0] == v@[a as int]);
        return;
    }
    let mut p = a;
    while p < b && v[p] != '='
        invariant
            a <= p <= b <= v.len(),
            t == v@.subrange(a as int, b as int),
            forall|j: int| a <= j < p ==> v@[j] != '=',
        decreases b - p,
    {
        p += 1;
    }
    proof {
        lemma_first_eq(t);
        assert forall|j: int| 0 <= j < p - a implies t[j] != '=' by {
            assert(t[j] == v@[a + j]);
        }
        if p < b {
            assert(t[p - a] == '=');
        }
    }
    if p == b {
        return;
    }
    assert(first_eq(t) == Some(p - a));
    let (ka, kb) = trim_bounds(v, a, p);
    let (va, vb) = trim_bounds(v, p + 1, b);
    assert(t.take(p - a) =~= v@.subrange(a as int, p as int));
    assert(t.skip(p - a + 1) =~= v@.subrange(p + 1, b as int));
    acc.insert(string_of(v, ka, kb), string_of(v, va, vb));
}

/// Reads the variables of a `.env` file with text `content`: one `NAME=value`
/// per line, names and values trimmed, blank lines and `#` comments skipped,
/// a later line winning over an earlier one with the same name.
pub fn parse_env(content: &str) -> (r: VarMap)
    ensures
        r@ == env_vars(content@),
{
    let v = chars_of(content);
    let mut acc: VarMap = StrMap::new();
    let mut start: usize = 0;
    let mut i: usize = 0;
    proof {
        lemma_split_lines_len(v@.take(0));
        assert(v@.take(0) =~= Seq::<char>::empty());
        assert(split_lines(v@.take(0)).drop_last() =~= Seq::<Seq<char>>::empty());
    }
    while i < v.len()
        invariant
            start <= i <= v.len(),
            split_lines(v@.take(i as int)).len() >= 1,
            split_lines(v@.take(i as int)).last() == v@.subrange(start as int, i as int),
            acc@ == env_lines(split_lines(v@.take(i as int)).drop_last()),
        decreases v.len() - i,
    {
        let ghost ls = split_lines(v@.take(i as int));
        assert(v@.take(i + 1).drop_last() =~= v@.take(i as int));
        if v[i] == '\n' {
            read_env_line(&mut acc, &v, start, i);
            assert(ls.drop_last().push(ls.last()) =~= ls);
            assert(split_lines(v@.take(i + 1)).drop_last() =~= ls);
            start = i + 1;
            assert(v@.subrange(start as int, i + 1) =~= Seq::<char>::empty());
        } else {
            assert(split_lines(v@.take(i + 1)).drop_last() =~= ls.drop_last());
            assert(v@.subrange(start as int, i + 1) =~= v@.subrange(start as int, i as int).push(v@[i as int]));
        }
        i += 1;
    }
    let ghost ls = split_lines(v@.take(i as int));
    read_env_line(&mut acc, &v, start, i);
    assert(ls.drop_last().push(ls.last()) =~= ls);
    assert(v@.take(i as int) =~= content@);
    acc
}

} // verus!
