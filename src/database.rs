//! The ledger store's own logic: sealing rows before they are written,
//! rejecting duplicates, and opening rows after they are read. The store
//! itself (queries, files) is driven by the caller, which hands rows in and
//! writes the rows that come out.
use vstd::prelude::*;
use vstd::string::StringExecFns;
use vstd::utf8::encode_utf8;
use crate::error::LedgerError;
use crate::models::{Budget, Transaction};
use crate::security::{
    base64_of, content_hash, fresh_token, gcm_seal, hex_lower, key_for, sealed_token, CryptoError,
    SecurityManager, GCM_MAX_PLAINTEXT, NONCE_LEN,
};

verus! {

/// Rows returned when the caller gives no limit.
pub const DEFAULT_LIMIT: i32 = 100;

pub open spec fn digit_char(d: int) -> char {
    seq!['0', '1', '2', '3', '4', '5', '6', '7', '8', '9'][d]
}

/// Decimal digits of a natural number, most significant first.
pub open spec fn digits(n: nat) -> Seq<char>
    decreases n,
{
    if n < 10 {
        seq![digit_char(n as int)]
    } else {
        digits(n / 10) + seq![digit_char((n % 10) as int)]
    }
}

/// Decimal text of an integer, with a leading minus when negative.
pub open spec fn decimal(n: int) -> Seq<char> {
    if n < 0 {
        seq!['-'] + digits((-n) as nat)
    } else {
        digits(n as nat)
    }
}

/// A field with its length in front: the length in decimal, a colon, and
/// the field. Framed fields run together can be told apart again.
pub open spec fn framed(s: Seq<char>) -> Seq<char> {
    digits(s.len()) + seq![':'] + s
}

/// The text whose hash identifies a transaction's content: description,
/// amount, date and account, each framed.
pub open spec fn hash_input(description: Seq<char>, amount: int, date: Seq<char>, account: Seq<char>) -> Seq<char> {
    framed(description) + framed(decimal(amount)) + framed(date) + framed(account)
}

proof fn lemma_digit_code(d: int)
    requires
        0 <= d < 10,
    ensures
        digit_char(d) as u32 == 48 + d,
{
    let t = seq!['0', '1', '2', '3', '4', '5', '6', '7', '8', '9'];
    if d == 0 {
        assert(t[0] == '0');
    } else if d == 1 {
        assert(t[1] == '1');
    } else if d == 2 {
        assert(t[2] == '2');
    } else if d == 3 {
        assert(t[3] == '3');
    } else if d == 4 {
        assert(t[4] == '4');
    } else if d == 5 {
        assert(t[5] == '5');
    } else if d == 6 {
        assert(t[6] == '6');
    } else if d == 7 {
        assert(t[7] == '7');
    } else if d == 8 {
        assert(t[8] == '8');
    } else {
        assert(t[9] == '9');
    }
}

proof fn lemma_digits_shape(n: nat)
    ensures
        digits(n).len() >= 1,
        n >= 10 ==> digits(n).len() >= 2,
        forall|i: int| 0 <= i < digits(n).len() ==> 48 <= #[trigger] (digits(n)[i] as u32) <= 57,
    decreases n,
{
    lemma_digit_code((n % 10) as int);
    if n >= 10 {
        lemma_digits_shape(n / 10);
        let p = digits(n / 10);
        assert forall|i: int| 0 <= i < digits(n).len() implies 48 <= #[trigger] (digits(n)[i] as u32)
            <= 57 by {
            if i < p.len() {
                assert(digits(n)[i] == p[i]);
            }
        }
    } else {
        lemma_digit_code(n as int);
    }
}

proof fn lemma_digits_injective(n: nat, m: nat)
    requires
        digits(n) == digits(m),
    ensures
        n == m,
    decreases n,
{
    lemma_digits_shape(n);
    lemma_digits_shape(m);
    if n < 10 && m < 10 {
        lemma_digit_code(n as int);
        lemma_digit_code(m as int);
        assert(digits(n)[0] == digit_char(n as int));
        assert(digits(m)[0] == digit_char(m as int));
    } else if n < 10 {
        assert(digits(n).len() == 1);
    } else if m < 10 {
        assert(digits(m).len() == 1);
    } else {
        lemma_digit_code((n % 10) as int);
        lemma_digit_code((m % 10) as int);
        assert(digits(n).last() == digit_char((n % 10) as int));
        assert(digits(m).last() == digit_char((m % 10) as int));
        assert(digits(n).drop_last() =~= digits(n / 10));
        assert(digits(m).drop_last() =~= digits(m / 10));
        lemma_digits_injective(n / 10, m / 10);
        assert(n % 10 == m % 10);
        assert(n == 10 * (n / 10) + n % 10);
        assert(m == 10 * (m / 10) + m % 10);
    }
}

proof fn lemma_decimal_injective(a: int, b: int)
    requires
        decimal(a) == decimal(b),
    ensures
        a == b,
{
    if a < 0 && b < 0 {
        assert(decimal(a).drop_first() =~= digits((-a) as nat));
        assert(decimal(b).drop_first() =~= digits((-b) as nat));
        lemma_digits_injective((-a) as nat, (-b) as nat);
    } else if a < 0 {
        lemma_digits_shape(b as nat);
        assert(decimal(a)[0] == '-');
        assert(48 <= (digits(b as nat)[0] as u32));
    } else if b < 0 {
        lemma_digits_shape(a as nat);
        assert(decimal(b)[0] == '-');
        assert(48 <= (digits(a as nat)[0] as u32));
    } else {
        lemma_digits_injective(a as nat, b as nat);
    }
}

/// A framed field followed by anything splits back into the field and the
/// rest.
proof fn lemma_framed_split(a: Seq<char>, x: Seq<char>, b: Seq<char>, y: Seq<char>)
    requires
        framed(a) + x == framed(b) + y,
    ensures
        a == b,
        x == y,
{
    let p = digits(a.len());
    let q = digits(b.len());
    let l = framed(a) + x;
    let r = framed(b) + y;
    lemma_digits_shape(a.len());
    lemma_digits_shape(b.len());
    if p.len() < q.len() {
        assert(l[p.len() as int] == ':');
        assert(r[p.len() as int] == q[p.len() as int]);
        assert(48 <= (q[p.len() as int] as u32) <= 57);
    } else if q.len() < p.len() {
        assert(r[q.len() as int] == ':');
        assert(l[q.len() as int] == p[q.len() as int]);
        assert(48 <= (p[q.len() as int] as u32) <= 57);
    } else {
        assert(l.subrange(0, p.len() as int) =~= p);
        assert(r.subrange(0, q.len() as int) =~= q);
        lemma_digits_injective(a.len(), b.len());
        let k: int = p.len() as int + 1;
        assert(l.subrange(k, k + a.len() as int) =~= a);
        assert(r.subrange(k, k + b.len() as int) =~= b);
        assert(l.subrange(k + a.len() as int, l.len() as int) =~= x);
        assert(r.subrange(k + b.len() as int, r.len() as int) =~= y);
    }
}

/// Transactions that differ in description, amount, date or account have
/// different hash inputs.
pub proof fn distinct_tuples_have_distinct_inputs(
    d1: Seq<char>,
    a1: int,
    t1: Seq<char>,
    c1: Seq<char>,
    d2: Seq<char>,
    a2: int,
    t2: Seq<char>,
    c2: Seq<char>,
)
    ensures
        hash_input(d1, a1, t1, c1) == hash_input(d2, a2, t2, c2) ==> d1 == d2 && a1 == a2 && t1
            == t2 && c1 == c2,
{
    if hash_input(d1, a1, t1, c1) == hash_input(d2, a2, t2, c2) {
        let x1 = framed(decimal(a1)) + framed(t1) + framed(c1);
        let x2 = framed(decimal(a2)) + framed(t2) + framed(c2);
        assert(hash_input(d1, a1, t1, c1) =~= framed(d1) + x1);
        assert(hash_input(d2, a2, t2, c2) =~= framed(d2) + x2);
        lemma_framed_split(d1, x1, d2, x2);
        let y1 = framed(t1) + framed(c1);
        let y2 = framed(t2) + framed(c2);
        assert(x1 =~= framed(decimal(a1)) + y1);
        assert(x2 =~= framed(decimal(a2)) + y2);
        lemma_framed_split(decimal(a1), y1, decimal(a2), y2);
        lemma_decimal_injective(a1, a2);
        lemma_framed_split(t1, framed(c1), t2, framed(c2));
        assert(framed(c1) + Seq::<char>::empty() =~= framed(c1));
        assert(framed(c2) + Seq::<char>::empty() =~= framed(c2));
        lemma_framed_split(c1, Seq::<char>::empty(), c2, Seq::<char>::empty());
    }
}

/// The content hash of a transaction.
pub open spec fn transaction_hash(t: &Transaction) -> Seq<char> {
    content_hash(hash_input(t.description@, t.amount as int, t.date@, t.account@))
}

/// Some stored hash equals `h`.
pub open spec fn is_duplicate(h: Seq<char>, stored: Seq<Seq<char>>) -> bool {
    exists|i: int| 0 <= i < stored.len() && #[trigger] stored[i] == h
}

pub open spec fn hash_views(v: Seq<String>) -> Seq<Seq<char>> {
    v.map_values(|h: String| h@)
}

pub open spec fn fits_cipher(s: Seq<char>) -> bool {
    encode_utf8(s).len() <= GCM_MAX_PLAINTEXT
}

/// Some text of acceptable length was sealed in `tok` under `key`.
pub open spec fn opens(tok: Seq<char>, key: Seq<u8>) -> bool {
    exists|s: Seq<char>| fits_cipher(s) && #[trigger] fresh_token(tok, key, s)
}

/// `s` is what `tok` opens to under `key`: it is sealed there, and it is
/// the text that sealing put there, whenever some text of acceptable length
/// was.
pub open spec fn opens_to(tok: Seq<char>, key: Seq<u8>, s: Seq<char>) -> bool {
    &&& sealed_token(tok, key, s)
    &&& forall|u: Seq<char>| fits_cipher(u) && #[trigger] fresh_token(tok, key, u) ==> u == s
}

/// The token that sealing `text` under `key` with `nonce` gives.
pub open spec fn token_with(key: Seq<u8>, nonce: Seq<u8>, text: Seq<char>) -> Seq<char> {
    base64_of(nonce + gcm_seal(key, nonce, encode_utf8(text)))
}

/// Inserting one transaction and then one with the same description,
/// amount, date and account: the second finds the first's hash stored.
pub proof fn duplicate_rejected(a: &Transaction, b: &Transaction, stored: Seq<Seq<char>>)
    requires
        a.description@ == b.description@,
        a.amount == b.amount,
        a.date@ == b.date@,
        a.account@ == b.account@,
    ensures
        is_duplicate(transaction_hash(b), stored.push(transaction_hash(a))),
{
    let s = stored.push(transaction_hash(a));
    assert(s[stored.len() as int] == transaction_hash(b));
}

/// A transaction as it is stored: sensitive text sealed, content hash beside.
pub struct TransactionRow {
    pub id: String,
    pub description_encrypted: String,
    pub amount: i64,
    pub date: String,
    pub category_encrypted: String,
    pub account: String,
    pub hash: String,
}

/// A budget as it is stored.
pub struct BudgetRow {
    pub id: String,
    pub category_encrypted: String,
    pub amount: i64,
    pub spent: i64,
    pub period: String,
}

fn digit_text(d: u64) -> (r: &'static str)
    requires
        d < 10,
    ensures
        r@ == seq![digit_char(d as int)],
{
    proof {
        reveal_strlit("0");
        reveal_strlit("1");
        reveal_strlit("2");
        reveal_strlit("3");
        reveal_strlit("4");
        reveal_strlit("5");
        reveal_strlit("6");
        reveal_strlit("7");
        reveal_strlit("8");
        reveal_strlit("9");
    }
    if d == 0 {
        "0"
    } else if d == 1 {
        "1"
    } else if d == 2 {
        "2"
    } else if d == 3 {
        "3"
    } else if d == 4 {
        "4"
    } else if d == 5 {
        "5"
    } else if d == 6 {
        "6"
    } else if d == 7 {
        "7"
    } else if d == 8 {
        "8"
    } else {
        "9"
    }
}

fn push_digits(out: &mut String, n: u64)
    ensures
        final(out)@ == old(out)@ + digits(n as nat),
    decreases n,
{
    if n >= 10 {
        push_digits(out, n / 10);
    }
    out.append(digit_text(n % 10));
}

fn push_framed(out: &mut String, field: &str)
    ensures
        final(out)@ == old(out)@ + framed(field@),
{
    let n = field.unicode_len();
    push_digits(out, n as u64);
    proof {
        reveal_strlit(":");
    }
    out.append(":");
    out.append(field);
}

/// Decimal text of an amount.
pub fn amount_text(n: i64) -> (r: String)
    ensures
        r@ == decimal(n as int),
{
    let mut out = String::new();
    if n < 0 {
        proof {
            reveal_strlit("-");
        }
        out.append("-");
        let m: u64 = (0i128 - n as i128) as u64;
        push_digits(&mut out, m);
    } else {
        push_digits(&mut out, n as u64);
    }
    out
}

/// The number of rows to read: the one asked for, else the default.
pub fn transaction_limit(limit: Option<i32>) -> (r: i32)
    ensures
        r == match limit {
            Some(l) => l,
            None => DEFAULT_LIMIT,
        },
{
    match limit {
        Some(l) => l,
        None => DEFAULT_LIMIT,
    }
}

/// Whether the store's structural check reported success.
pub fn integrity_passed(report: &str) -> (r: bool)
    ensures
        r == (report@ == "ok"@),
{
    proof {
        reveal_strlit("ok");
    }
    let n = report.unicode_len();
    if n != 2 {
        return false;
    }
    let a = report.get_char(0);
    let b = report.get_char(1);
    if a == 'o' && b == 'k' {
        assert(report@ =~= "ok"@);
        true
    } else {
        false
    }
}

/// The holder of the key for one unlocked store.
pub struct DatabaseManager {
    security: SecurityManager,
    encryption_key: [u8; 32],
}

impl DatabaseManager {
    pub closed spec fn key(&self) -> Seq<u8> {
        self.encryption_key@
    }

    /// Derives the key from the password. Opening the store file with it is
    /// the caller's part: see `key_pragma`.
    pub fn new(password: &str) -> (r: Result<DatabaseManager, LedgerError>)
        ensures
            r matches Ok(m) && m.key() == key_for(password@),
    {
        let security = SecurityManager::new();
        match security.derive_key(password) {
            Ok(encryption_key) => Ok(DatabaseManager { security, encryption_key }),
            Err(e) => Err(LedgerError::Crypto(e)),
        }
    }

    /// The value of the store engine's `key` setting: the raw key in hex.
    pub fn key_pragma(&self) -> (r: String)
        ensures
            r@ == "\"x'"@ + hex_lower(self.key()) + "'\""@,
    {
        let hex = crate::security::hex_text(self.encryption_key.as_slice());
        let mut s = String::from_str("\"x'");
        s.append(hex.as_str());
        s.append("'\"");
        s
    }

    fn seal_with(&self, text: &str, nonce: &Vec<u8>) -> (r: Result<String, LedgerError>)
        requires
            nonce@.len() == NONCE_LEN,
        ensures
            fits_cipher(text@) ==> (r matches Ok(t) && t@ == token_with(self.key(), nonce@, text@)
                && sealed_token(t@, self.key(), text@) && fresh_token(t@, self.key(), text@)),
            !fits_cipher(text@) ==> r == Err::<String, LedgerError>(
                LedgerError::Crypto(CryptoError::EncryptionFailed),
            ),
    {
        match self.security.seal_with_nonce(text, &self.encryption_key, nonce) {
            Ok(t) => Ok(t),
            Err(e) => Err(LedgerError::Crypto(e)),
        }
    }

    fn seal(&self, text: &str) -> (r: Result<String, LedgerError>)
        ensures
            fits_cipher(text@) ==> (r matches Ok(t) && sealed_token(t@, self.key(), text@) && fresh_token(
                t@,
                self.key(),
                text@,
            )) || r == Err::<String, LedgerError>(
                LedgerError::Crypto(CryptoError::RandomnessUnavailable),
            ),
            !fits_cipher(text@) ==> r == Err::<String, LedgerError>(
                LedgerError::Crypto(CryptoError::EncryptionFailed),
            ),
    {
        match self.security.encrypt(text, &self.encryption_key) {
            Ok(t) => Ok(t),
            Err(e) => Err(LedgerError::Crypto(e)),
        }
    }

    fn open(&self, tok: &str) -> (r: Result<String, LedgerError>)
        ensures
            r matches Ok(s) ==> opens_to(tok@, self.key(), s@),
            opens(tok@, self.key()) ==> r is Ok,
            r matches Err(e) ==> e is Crypto && !opens(tok@, self.key()),
    {
        match self.security.decrypt(tok, &self.encryption_key) {
            Ok(s) => Ok(s),
            Err(e) => Err(LedgerError::Crypto(e)),
        }
    }

    /// The content hash of a transaction whose texts can be sealed, or why
    /// it cannot be added.
    fn new_content(&self, transaction: &Transaction, stored_hashes: &Vec<String>) -> (r: Result<
        String,
        LedgerError,
    >)
        ensures
            (!fits_cipher(transaction.description@) || !fits_cipher(transaction.category@)) <==> (r
                == Err::<String, LedgerError>(LedgerError::Crypto(CryptoError::EncryptionFailed))),
            fits_cipher(transaction.description@) && fits_cipher(transaction.category@) ==> (r
                == Err::<String, LedgerError>(LedgerError::DuplicateTransaction) <==> is_duplicate(
                transaction_hash(transaction),
                hash_views(stored_hashes@),
            )),
            r matches Err(e) ==> e == LedgerError::Crypto(CryptoError::EncryptionFailed) || e
                == LedgerError::DuplicateTransaction,
            r matches Ok(h) ==> h@ == transaction_hash(transaction) && fits_cipher(transaction.description@)
                && fits_cipher(transaction.category@),
    {
        if transaction.description.as_str().as_bytes().len() as u64 > GCM_MAX_PLAINTEXT
            || transaction.category.as_str().as_bytes().len() as u64 > GCM_MAX_PLAINTEXT {
            return Err(LedgerError::Crypto(CryptoError::EncryptionFailed));
        }
        let mut input = String::new();
        push_framed(&mut input, transaction.description.as_str());
        let amount = amount_text(transaction.amount);
        push_framed(&mut input, amount.as_str());
        push_framed(&mut input, transaction.date.as_str());
        push_framed(&mut input, transaction.account.as_str());
        assert(input@ =~= hash_input(
            transaction.description@,
            transaction.amount as int,
            transaction.date@,
            transaction.account@,
        ));
        let hash = match self.security.create_hash(input.as_str()) {
            Ok(h) => h,
            Err(e) => {
                return Err(LedgerError::Crypto(e));
            },
        };
        let mut i: usize = 0;
        while i < stored_hashes.len()
            invariant
                0 <= i <= stored_hashes.len(),
                hash@ == transaction_hash(transaction),
                fits_cipher(transaction.description@) && fits_cipher(transaction.category@),
                forall|j: int| 0 <= j < i ==> stored_hashes@[j]@ != hash@,
            decreases stored_hashes.len() - i,
        {
            if stored_hashes[i] == hash {
                assert(hash_views(stored_hashes@)[i as int] == hash@);
                return Err(LedgerError::DuplicateTransaction);
            }
            i = i + 1;
        }
        assert(!is_duplicate(transaction_hash(transaction), hash_views(stored_hashes@))) by {
            assert forall|j: int| 0 <= j < stored_hashes@.len() implies #[trigger] hash_views(
                stored_hashes@,
            )[j] != hash@ by {
                assert(stored_hashes@[j]@ != hash@);
            }
        }
        Ok(hash)
    }

    /// Seals a transaction for storage with the given nonces and rejects it
    /// when a stored row carries the same content hash.
    pub fn add_transaction_with_nonces(
        &self,
        transaction: &Transaction,
        stored_hashes: &Vec<String>,
        description_nonce: &Vec<u8>,
        category_nonce: &Vec<u8>,
    ) -> (r: Result<TransactionRow, LedgerError>)
        requires
            description_nonce@.len() == NONCE_LEN,
            category_nonce@.len() == NONCE_LEN,
        ensures
            (!fits_cipher(transaction.description@) || !fits_cipher(transaction.category@)) <==> (r
                == Err::<TransactionRow, LedgerError>(
                LedgerError::Crypto(CryptoError::EncryptionFailed),
            )),
            fits_cipher(transaction.description@) && fits_cipher(transaction.category@) ==> (r
                == Err::<TransactionRow, LedgerError>(LedgerError::DuplicateTransaction)
                <==> is_duplicate(transaction_hash(transaction), hash_views(stored_hashes@))),
            fits_cipher(transaction.description@) && fits_cipher(transaction.category@)
                && !is_duplicate(transaction_hash(transaction), hash_views(stored_hashes@)) ==> r is Ok,
            r matches Err(e) ==> e == LedgerError::Crypto(CryptoError::EncryptionFailed) || e
                == LedgerError::DuplicateTransaction,
            r matches Ok(row) ==> {
                &&& row_of(&row, transaction, self.key())
                &&& row.description_encrypted@ == token_with(self.key(), description_nonce@, transaction.description@)
                &&& row.category_encrypted@ == token_with(self.key(), category_nonce@, transaction.category@)
            },
    {
        let hash = match self.new_content(transaction, stored_hashes) {
            Ok(h) => h,
            Err(e) => {
                return Err(e);
            },
        };
        let description_encrypted = match self.seal_with(transaction.description.as_str(), description_nonce) {
            Ok(t) => t,
            Err(e) => {
                return Err(e);
            },
        };
        let category_encrypted = match self.seal_with(transaction.category.as_str(), category_nonce) {
            Ok(t) => t,
            Err(e) => {
                return Err(e);
            },
        };
        Ok(
            TransactionRow {
                id: transaction.id.clone(),
                description_encrypted,
                amount: transaction.amount,
                date: transaction.date.clone(),
                category_encrypted,
                account: transaction.account.clone(),
                hash,
            },
        )
    }

    /// Seals a transaction for storage with fresh random nonces and rejects
    /// it when a stored row carries the same content hash.
    pub fn add_transaction(&self, transaction: &Transaction, stored_hashes: &Vec<String>) -> (r: Result<
        TransactionRow,
        LedgerError,
    >)
        ensures
            (!fits_cipher(transaction.description@) || !fits_cipher(transaction.category@)) <==> (r
                == Err::<TransactionRow, LedgerError>(
                LedgerError::Crypto(CryptoError::EncryptionFailed),
            )),
            fits_cipher(transaction.description@) && fits_cipher(transaction.category@) ==> (r
                == Err::<TransactionRow, LedgerError>(LedgerError::DuplicateTransaction)
                <==> is_duplicate(transaction_hash(transaction), hash_views(stored_hashes@))),
            fits_cipher(transaction.description@) && fits_cipher(transaction.category@)
                && !is_duplicate(transaction_hash(transaction), hash_views(stored_hashes@)) ==> r is Ok
                || r == Err::<TransactionRow, LedgerError>(
                LedgerError::Crypto(CryptoError::RandomnessUnavailable),
            ),
            r matches Err(e) ==> e == LedgerError::Crypto(CryptoError::EncryptionFailed) || e
                == LedgerError::DuplicateTransaction || e == LedgerError::Crypto(
                CryptoError::RandomnessUnavailable,
            ),
            r matches Ok(row) ==> row_of(&row, transaction, self.key()),
    {
        if let Err(e) = self.new_content(transaction, stored_hashes) {
            return Err(e);
        }
        let description_nonce = match self.security.fresh_nonce() {
            Ok(n) => n,
            Err(e) => {
                return Err(LedgerError::Crypto(e));
            },
        };
        let category_nonce = match self.security.fresh_nonce() {
            Ok(n) => n,
            Err(e) => {
                return Err(LedgerError::Crypto(e));
            },
        };
        self.add_transaction_with_nonces(transaction, stored_hashes, &description_nonce, &category_nonce)
    }

    /// Opens one stored transaction.
    pub fn open_transaction(&self, row: &TransactionRow) -> (r: Result<Transaction, LedgerError>)
        ensures
            opens(row.description_encrypted@, self.key()) && opens(row.category_encrypted@, self.key())
                ==> r is Ok,
            r matches Err(e) ==> e is Crypto && !(opens(row.description_encrypted@, self.key()) && opens(
                row.category_encrypted@,
                self.key(),
            )),
            r matches Ok(t) ==> transaction_opened(&t, row, self.key()),
    {
        let description = match self.open(row.description_encrypted.as_str()) {
            Ok(t) => t,
            Err(e) => {
                return Err(e);
            },
        };
        let category = match self.open(row.category_encrypted.as_str()) {
            Ok(t) => t,
            Err(e) => {
                return Err(e);
            },
        };
        Ok(
            Transaction {
                id: row.id.clone(),
                description,
                amount: row.amount,
                date: row.date.clone(),
                category,
                account: row.account.clone(),
            },
        )
    }

    /// Opens the rows that the store returned, in their order. A row that
    /// does not open aborts the whole read.
    pub fn get_transactions(&self, rows: &Vec<TransactionRow>) -> (r: Result<Vec<Transaction>, LedgerError>)
        ensures
            (forall|i: int|
                0 <= i < rows@.len() ==> opens(#[trigger] rows@[i].description_encrypted@, self.key())
                    && opens(rows@[i].category_encrypted@, self.key())) ==> r is Ok,
            r matches Err(e) ==> e is Crypto && exists|i: int|
                0 <= i < rows@.len() && !(opens(#[trigger] rows@[i].description_encrypted@, self.key())
                    && opens(rows@[i].category_encrypted@, self.key())),
            r matches Ok(v) ==> v@.len() == rows@.len() && forall|i: int|
                0 <= i < rows@.len() ==> transaction_opened(#[trigger] &v@[i], &rows@[i], self.key()),
    {
        let mut out: Vec<Transaction> = Vec::new();
        let mut i: usize = 0;
        while i < rows.len()
            invariant
                0 <= i <= rows@.len(),
                out@.len() == i,
                forall|j: int| 0 <= j < i ==> transaction_opened(#[trigger] &out@[j], &rows@[j], self.key()),
            decreases rows@.len() - i,
        {
            let t = self.open_transaction(&rows[i]);
            match t {
                Ok(t) => {
                    out.push(t);
                },
                Err(e) => {
                    assert(!(opens(rows@[i as int].description_encrypted@, self.key()) && opens(
                        rows@[i as int].category_encrypted@,
                        self.key(),
                    )));
                    return Err(e);
                },
            }
            i = i + 1;
        }
        Ok(out)
    }

    /// Seals a budget for storage.
    pub fn set_budget(&self, budget: &Budget) -> (r: Result<BudgetRow, LedgerError>)
        ensures
            !fits_cipher(budget.category@) <==> r == Err::<BudgetRow, LedgerError>(
                LedgerError::Crypto(CryptoError::EncryptionFailed),
            ),
            fits_cipher(budget.category@) ==> r is Ok || r == Err::<BudgetRow, LedgerError>(
                LedgerError::Crypto(CryptoError::RandomnessUnavailable),
            ),
            r matches Err(e) ==> e == LedgerError::Crypto(CryptoError::EncryptionFailed) || e
                == LedgerError::Crypto(CryptoError::RandomnessUnavailable),
            r matches Ok(row) ==> {
                &&& row.id@ == budget.id@
                &&& sealed_token(row.category_encrypted@, self.key(), budget.category@)
                &&& fresh_token(row.category_encrypted@, self.key(), budget.category@)
                &&& row.amount == budget.amount
                &&& row.spent == budget.spent
                &&& row.period@ == budget.period@
            },
    {
        let category_encrypted = match self.seal(budget.category.as_str()) {
            Ok(t) => t,
            Err(e) => {
                return Err(e);
            },
        };
        Ok(
            BudgetRow {
                id: budget.id.clone(),
                category_encrypted,
                amount: budget.amount,
                spent: budget.spent,
                period: budget.period.clone(),
            },
        )
    }

    /// Opens the stored budgets; a row that does not open aborts the read.
    pub fn get_budgets(&self, rows: &Vec<BudgetRow>) -> (r: Result<Vec<Budget>, LedgerError>)
        ensures
            (forall|i: int|
                0 <= i < rows@.len() ==> opens(#[trigger] rows@[i].category_encrypted@, self.key())) ==> r is Ok,
            r matches Err(e) ==> e is Crypto && exists|i: int|
                0 <= i < rows@.len() && !opens(#[trigger] rows@[i].category_encrypted@, self.key()),
            r matches Ok(v) ==> v@.len() == rows@.len() && forall|i: int|
                0 <= i < rows@.len() ==> budget_opened(#[trigger] &v@[i], &rows@[i], self.key()),
    {
        let mut out: Vec<Budget> = Vec::new();
        let mut i: usize = 0;
        while i < rows.len()
            invariant
                0 <= i <= rows@.len(),
                out@.len() == i,
                forall|j: int| 0 <= j < i ==> budget_opened(#[trigger] &out@[j], &rows@[j], self.key()),
            decreases rows@.len() - i,
        {
            let row = &rows[i];
            let category = match self.open(row.category_encrypted.as_str()) {
                Ok(c) => c,
                Err(e) => {
                    assert(!opens(rows@[i as int].category_encrypted@, self.key()));
                    return Err(e);
                },
            };
            out.push(
                Budget {
                    id: row.id.clone(),
                    category,
                    amount: row.amount,
                    spent: row.spent,
                    period: row.period.clone(),
                },
            );
            i = i + 1;
        }
        Ok(out)
    }

    /// The statement that copies the whole store to `backup_path` as one
    /// consistent snapshot.
    pub fn backup_database(&self, backup_path: &str) -> (r: String)
        ensures
            r@ == "VACUUM INTO '"@ + backup_path@ + "'"@,
    {
        let mut s = String::from_str("VACUUM INTO '");
        s.append(backup_path);
        s.append("'");
        s
    }

    /// Maps the store's structural check to the ledger's outcome.
    pub fn verify_integrity(&self, report: &str) -> (r: Result<bool, LedgerError>)
        ensures
            r == Ok::<bool, LedgerError>(report@ == "ok"@),
    {
        Ok(integrity_passed(report))
    }
}

/// `row` stores `t` under `key`: texts sealed with fresh nonces, the rest
/// as given, and the content hash beside.
pub open spec fn row_of(row: &TransactionRow, t: &Transaction, key: Seq<u8>) -> bool {
    &&& row.id@ == t.id@
    &&& sealed_token(row.description_encrypted@, key, t.description@)
    &&& fresh_token(row.description_encrypted@, key, t.description@)
    &&& row.amount == t.amount
    &&& row.date@ == t.date@
    &&& sealed_token(row.category_encrypted@, key, t.category@)
    &&& fresh_token(row.category_encrypted@, key, t.category@)
    &&& row.account@ == t.account@
    &&& row.hash@ == transaction_hash(t)
}

/// A row that `add_transaction` stored reads back, through
/// `get_transactions`, as the transaction that was given: the row opens, and
/// what it opens to is that transaction field for field.
pub proof fn stored_transaction_reads_back(row: &TransactionRow, t: &Transaction, opened: &Transaction, key: Seq<u8>)
    requires
        row_of(row, t, key),
        fits_cipher(t.description@),
        fits_cipher(t.category@),
    ensures
        opens(row.description_encrypted@, key),
        opens(row.category_encrypted@, key),
        transaction_opened(opened, row, key) ==> {
            &&& opened.id@ == t.id@
            &&& opened.description@ == t.description@
            &&& opened.amount == t.amount
            &&& opened.date@ == t.date@
            &&& opened.category@ == t.category@
            &&& opened.account@ == t.account@
        },
{
}

/// A budget row that `set_budget` stored reads back, through `get_budgets`,
/// with the category that was given.
pub proof fn stored_budget_reads_back(row: &BudgetRow, b: &Budget, opened: &Budget, key: Seq<u8>)
    requires
        fresh_token(row.category_encrypted@, key, b.category@),
        fits_cipher(b.category@),
    ensures
        opens(row.category_encrypted@, key),
        budget_opened(opened, row, key) ==> opened.category@ == b.category@,
{
}

/// `t` is the plain form of `row` under `key`.
pub open spec fn transaction_opened(t: &Transaction, row: &TransactionRow, key: Seq<u8>) -> bool {
    &&& t.id@ == row.id@
    &&& opens_to(row.description_encrypted@, key, t.description@)
    &&& t.amount == row.amount
    &&& t.date@ == row.date@
    &&& opens_to(row.category_encrypted@, key, t.category@)
    &&& t.account@ == row.account@
}

/// `b` is the plain form of `row` under `key`.
pub open spec fn budget_opened(b: &Budget, row: &BudgetRow, key: Seq<u8>) -> bool {
    &&& b.id@ == row.id@
    &&& opens_to(row.category_encrypted@, key, b.category@)
    &&& b.amount == row.amount
    &&& b.spent == row.spent
    &&& b.period@ == row.period@
}

} // verus!
