//! The tables of access and refresh tokens. A token stands for the credentials
//! of a user of the wiki. What is stored is the token's digest and the encrypted
//! credentials.

use crate::crypto;
use crate::crypto::{sha256_hex, TokenCipher};
use crate::rows::retain_rows;
use crate::text::same_text;
use vstd::prelude::*;

verus! {

/// With so many access tokens, expired ones are removed before another is added.
pub const MAX_ACCESS_TOKENS: usize = 10000;

/// A stored token.
#[derive(Debug)]
pub struct TokenRow {
    /// The digest of the token; in old rows the token itself.
    pub token: String,
    /// The encrypted id of the credentials; in old rows the id itself.
    pub token_id: String,
    /// The encrypted secret of the credentials; in old rows the secret itself.
    pub token_secret: String,
    /// When it was stored, in Unix seconds.
    pub created_at: i64,
}

/// A table of tokens.
pub struct TokenTable {
    pub rows: Vec<TokenRow>,
}

/// The digest by which a token is stored.
pub fn hash_token(token: &str) -> (r: String)
    ensures
        r@ == crypto::sha256_text(token@),
{
    sha256_hex(token)
}

/// The rows that were stored after the given time.
pub open spec fn stored_after(rows: Seq<TokenRow>, cutoff: int) -> Seq<TokenRow> {
    rows.filter(|r: TokenRow| r.created_at > cutoff)
}

/// The rows for other tokens.
pub open spec fn without(rows: Seq<TokenRow>, token: Seq<char>) -> Seq<TokenRow> {
    rows.filter(|r: TokenRow| r.token@ != token)
}

/// The first row from the `i`th on for the token that was stored after the given
/// time.
pub open spec fn valid_row(
    rows: Seq<TokenRow>,
    token: Seq<char>,
    cutoff: int,
    i: int,
) -> Option<TokenRow>
    decreases rows.len() - i,
{
    if i < 0 || i >= rows.len() {
        None
    } else if rows[i].token@ == token && rows[i].created_at > cutoff {
        Some(rows[i])
    } else {
        valid_row(rows, token, cutoff, i + 1)
    }
}

/// The credentials in a row, where both parts are encrypted under the key.
pub open spec fn credentials(key: Seq<u8>, row: TokenRow) -> Option<(Seq<char>, Seq<char>)> {
    match (
        crypto::decrypted(key, row.token_id@),
        crypto::decrypted(key, row.token_secret@),
    ) {
        (Some(id), Some(secret)) => Some((id, secret)),
        _ => None,
    }
}

/// The row holds the credentials for the token, stored at the given time.
pub open spec fn is_row_for(
    row: TokenRow,
    key: Seq<u8>,
    token: Seq<char>,
    id: Seq<char>,
    secret: Seq<char>,
    now: i64,
) -> bool {
    &&& row.token@ == token
    &&& credentials(key, row) == Some((id, secret))
    &&& row.created_at == now
}

/// The rows that an access table keeps when a token is to be stored: a full one
/// drops those that were stored by the cutoff.
pub open spec fn kept_access_rows(rows: Seq<TokenRow>, cutoff: int) -> Seq<TokenRow> {
    if rows.len() >= MAX_ACCESS_TOKENS {
        stored_after(rows, cutoff)
    } else {
        rows
    }
}

/// The row for an access token: the one for its digest, or else an old one for
/// the token itself.
pub open spec fn access_row(rows: Seq<TokenRow>, token: Seq<char>, cutoff: int) -> Option<TokenRow> {
    match valid_row(rows, crypto::sha256_text(token), cutoff, 0) {
        Some(row) => Some(row),
        None => valid_row(rows, token, cutoff, 0),
    }
}

/// The credentials for an access token. Those of an old row are stored as they
/// are.
pub open spec fn access_answer(
    rows: Seq<TokenRow>,
    key: Seq<u8>,
    token: Seq<char>,
    cutoff: int,
) -> Option<(Seq<char>, Seq<char>)> {
    match access_row(rows, token, cutoff) {
        None => None,
        Some(row) => match credentials(key, row) {
            Some(c) => Some(c),
            None => Some((row.token_id@, row.token_secret@)),
        },
    }
}

/// The credentials for a refresh token.
pub open spec fn refresh_answer(
    rows: Seq<TokenRow>,
    key: Seq<u8>,
    token: Seq<char>,
    cutoff: int,
) -> Option<(Seq<char>, Seq<char>)> {
    match valid_row(rows, crypto::sha256_text(token), cutoff, 0) {
        None => None,
        Some(row) => credentials(key, row),
    }
}

/// A pair of texts.
pub open spec fn pair_text(r: Option<(String, String)>) -> Option<(Seq<char>, Seq<char>)> {
    match r {
        Some((a, b)) => Some((a@, b@)),
        None => None,
    }
}

/// The rows after those for the token got the credentials in encrypted form.
pub open spec fn is_reencrypted(
    before: Seq<TokenRow>,
    after: Seq<TokenRow>,
    key: Seq<u8>,
    token: Seq<char>,
    id: Seq<char>,
    secret: Seq<char>,
) -> bool {
    &&& after.len() == before.len()
    &&& forall|i: int|
        0 <= i < before.len() ==> if before[i].token@ == token {
            is_row_for(#[trigger] after[i], key, token, id, secret, before[i].created_at)
        } else {
            after[i] == before[i]
        }
}

/// What the rows hold is not too long to be encrypted.
pub open spec fn can_encrypt_all(rows: Seq<TokenRow>) -> bool {
    forall|i: int|
        0 <= i < rows.len() ==> crypto::can_encrypt((#[trigger] rows[i]).token_id@)
            && crypto::can_encrypt(rows[i].token_secret@)
}

/// The time before which tokens have expired.
fn cutoff_secs(now: i64, ttl_secs: u64) -> (r: i64)
    requires
        0 <= now,
        ttl_secs <= i64::MAX,
    ensures
        r == now - ttl_secs,
{
    now - ttl_secs as i64
}

impl TokenTable {
    /// A table without tokens.
    pub fn new() -> (r: Self)
        ensures
            r.rows@ == Seq::<TokenRow>::empty(),
    {
        TokenTable { rows: Vec::new() }
    }

    /// Finds the row for a token that was stored after the given time.
    fn find_valid(&self, token: &str, cutoff: i64) -> (r: Option<usize>)
        ensures
            match r {
                Some(i) => i < self.rows@.len() && valid_row(
                    self.rows@,
                    token@,
                    cutoff as int,
                    0,
                ) == Some(self.rows@[i as int]),
                None => valid_row(self.rows@, token@, cutoff as int, 0) is None,
            },
    {
        let mut i: usize = 0;
        while i < self.rows.len()
            invariant
                i <= self.rows@.len(),
                valid_row(self.rows@, token@, cutoff as int, 0) == valid_row(
                    self.rows@,
                    token@,
                    cutoff as int,
                    i as int,
                ),
            decreases self.rows@.len() - i,
        {
            if self.rows[i].created_at > cutoff && same_text(self.rows[i].token.as_str(), token) {
                return Some(i);
            }
            i += 1;
        }
        None
    }

    /// Removes the tokens that were stored by the given time.
    fn remove_until(&mut self, cutoff: i64)
        ensures
            final(self).rows@ == stored_after(old(self).rows@, cutoff as int),
    {
        let ghost fits = |r: TokenRow| r.created_at > cutoff;
        let keep = |r: &TokenRow| -> (b: bool)
            ensures
                b == (r.created_at > cutoff),
        {
            r.created_at > cutoff
        };
        retain_rows(&mut self.rows, keep, Ghost(fits));
    }

    /// Removes the rows for a token.
    fn remove_token(&mut self, token: &str)
        ensures
            final(self).rows@ == without(old(self).rows@, token@),
    {
        let ghost fits = |r: TokenRow| r.token@ != token@;
        let keep = |r: &TokenRow| -> (b: bool)
            ensures
                b == (r.token@ != token@),
        {
            !same_text(r.token.as_str(), token)
        };
        retain_rows(&mut self.rows, keep, Ghost(fits));
    }

    /// Stores the credentials for a token, in place of what there was for it.
    fn put(&mut self, cipher: &TokenCipher, token: &str, id: &str, secret: &str, now: i64)
        requires
            crypto::can_encrypt(id@),
            crypto::can_encrypt(secret@),
        ensures
            final(self).rows@.len() > 0,
            final(self).rows@.drop_last() == without(
                old(self).rows@,
                crypto::sha256_text(token@),
            ),
            is_row_for(
                final(self).rows@.last(),
                cipher.key(),
                crypto::sha256_text(token@),
                id@,
                secret@,
                now,
            ),
    {
        let digest = hash_token(token);
        self.remove_token(digest.as_str());
        let token_id = cipher.encrypt(id);
        let token_secret = cipher.encrypt(secret);
        let ghost before = self.rows@;
        self.rows.push(TokenRow { token: digest, token_id, token_secret, created_at: now });
        assert(self.rows@.drop_last() =~= before);
    }

    /// How many rows there are for other tokens.
    fn count_others(&self, token: &str) -> (n: usize)
        ensures
            n == without(self.rows@, token@).len(),
    {
        let ghost rows = self.rows@;
        let mut n: usize = 0;
        let mut i: usize = 0;
        proof {
            reveal(Seq::filter);
            assert(without(rows.take(0), token@).len() == 0);
        }
        while i < self.rows.len()
            invariant
                rows == self.rows@,
                n <= i <= rows.len(),
                n == without(rows.take(i as int), token@).len(),
            decreases rows.len() - i,
        {
            proof {
                reveal(Seq::filter);
                assert(rows.take(i + 1).drop_last() =~= rows.take(i as int));
                assert(rows.take(i + 1).last() == rows[i as int]);
            }
            if !same_text(self.rows[i].token.as_str(), token) {
                n += 1;
            }
            i += 1;
        }
        assert(rows.take(i as int) =~= rows);
        n
    }

    /// Stores the credentials for an access token, in place of what there was
    /// for it, as long as the table stays within its limit. In a full table,
    /// expired tokens are removed first; where it is full all the same, nothing
    /// is stored.
    pub fn insert_access_token(
        &mut self,
        cipher: &TokenCipher,
        token: &str,
        id: &str,
        secret: &str,
        now: i64,
        ttl_secs: u64,
    )
        requires
            0 <= now,
            ttl_secs <= i64::MAX,
            crypto::can_encrypt(id@),
            crypto::can_encrypt(secret@),
        ensures
            ({
                let kept = kept_access_rows(old(self).rows@, now - ttl_secs);
                let others = without(kept, crypto::sha256_text(token@));
                if others.len() < MAX_ACCESS_TOKENS {
                    &&& final(self).rows@.len() > 0
                    &&& final(self).rows@.drop_last() == others
                    &&& is_row_for(
                        final(self).rows@.last(),
                        cipher.key(),
                        crypto::sha256_text(token@),
                        id@,
                        secret@,
                        now,
                    )
                } else {
                    final(self).rows@ == kept
                }
            }),
            old(self).rows@.len() <= MAX_ACCESS_TOKENS ==> final(self).rows@.len()
                <= MAX_ACCESS_TOKENS,
    {
        proof {
            old(self).rows@.lemma_filter_len(|r: TokenRow| r.created_at > now - ttl_secs);
        }
        if self.rows.len() >= MAX_ACCESS_TOKENS {
            let cutoff: i64 = cutoff_secs(now, ttl_secs);
            self.remove_until(cutoff);
        }
        let digest = hash_token(token);
        if self.count_others(digest.as_str()) < MAX_ACCESS_TOKENS {
            self.put(cipher, token, id, secret, now);
        }
    }

    /// Stores the credentials for a refresh token.
    pub fn insert_refresh_token(
        &mut self,
        cipher: &TokenCipher,
        token: &str,
        id: &str,
        secret: &str,
        now: i64,
    )
        requires
            crypto::can_encrypt(id@),
            crypto::can_encrypt(secret@),
        ensures
            final(self).rows@.len() > 0,
            final(self).rows@.drop_last() == without(
                old(self).rows@,
                crypto::sha256_text(token@),
            ),
            is_row_for(
                final(self).rows@.last(),
                cipher.key(),
                crypto::sha256_text(token@),
                id@,
                secret@,
                now,
            ),
    {
        self.put(cipher, token, id, secret, now);
    }

    /// Gives the rows for a token the credentials in encrypted form.
    fn reencrypt(&mut self, cipher: &TokenCipher, token: &str, id: &str, secret: &str)
        requires
            crypto::can_encrypt(id@),
            crypto::can_encrypt(secret@),
        ensures
            is_reencrypted(
                old(self).rows@,
                final(self).rows@,
                cipher.key(),
                token@,
                id@,
                secret@,
            ),
    {
        let ghost start = self.rows@;
        let total: usize = self.rows.len();
        let mut i: usize = 0;
        while i < total
            invariant
                i <= total,
                total == start.len(),
                self.rows@.len() == start.len(),
                crypto::can_encrypt(id@),
                crypto::can_encrypt(secret@),
                forall|j: int|
                    0 <= j < i ==> if start[j].token@ == token@ {
                        is_row_for(
                            #[trigger] self.rows@[j],
                            cipher.key(),
                            token@,
                            id@,
                            secret@,
                            start[j].created_at,
                        )
                    } else {
                        self.rows@[j] == start[j]
                    },
                forall|j: int| i <= j < total ==> #[trigger] self.rows@[j] == start[j],
            decreases total - i,
        {
            if same_text(self.rows[i].token.as_str(), token) {
                let row = TokenRow {
                    token: token.to_owned(),
                    token_id: cipher.encrypt(id),
                    token_secret: cipher.encrypt(secret),
                    created_at: self.rows[i].created_at,
                };
                self.rows.set(i, row);
            }
            i += 1;
        }
    }

    /// Looks the credentials for an access token up. Those of an old row are
    /// taken as they are, and the old rows for the token get them in encrypted
    /// form.
    pub fn get_access_token(
        &mut self,
        cipher: &TokenCipher,
        token: &str,
        now: i64,
        ttl_secs: u64,
    ) -> (r: Option<(String, String)>)
        requires
            0 <= now,
            ttl_secs <= i64::MAX,
            can_encrypt_all(old(self).rows@),
        ensures
            pair_text(r) == access_answer(
                old(self).rows@,
                cipher.key(),
                token@,
                now - ttl_secs,
            ),
            match access_row(old(self).rows@, token@, now - ttl_secs) {
                None => final(self).rows@ == old(self).rows@,
                Some(row) => if credentials(cipher.key(), row) is Some {
                    final(self).rows@ == old(self).rows@
                } else {
                    is_reencrypted(
                        old(self).rows@,
                        final(self).rows@,
                        cipher.key(),
                        token@,
                        row.token_id@,
                        row.token_secret@,
                    )
                },
            },
    {
        let cutoff: i64 = cutoff_secs(now, ttl_secs);
        let digest = hash_token(token);
        let found: Option<usize> = match self.find_valid(digest.as_str(), cutoff) {
            Some(i) => Some(i),
            None => self.find_valid(token, cutoff),
        };
        match found {
            None => None,
            Some(i) => {
                let stored_id = self.rows[i].token_id.as_str().to_owned();
                let stored_secret = self.rows[i].token_secret.as_str().to_owned();
                match (cipher.decrypt(stored_id.as_str()), cipher.decrypt(stored_secret.as_str())) {
                    (Some(id), Some(secret)) => Some((id, secret)),
                    _ => {
                        self.reencrypt(
                            cipher,
                            token,
                            stored_id.as_str(),
                            stored_secret.as_str(),
                        );
                        Some((stored_id, stored_secret))
                    },
                }
            },
        }
    }

    /// Looks the credentials for a refresh token up.
    pub fn get_refresh_token(
        &self,
        cipher: &TokenCipher,
        token: &str,
        now: i64,
        ttl_secs: u64,
    ) -> (r: Option<(String, String)>)
        requires
            0 <= now,
            ttl_secs <= i64::MAX,
        ensures
            pair_text(r) == refresh_answer(self.rows@, cipher.key(), token@, now - ttl_secs),
    {
        let cutoff: i64 = cutoff_secs(now, ttl_secs);
        let digest = hash_token(token);
        match self.find_valid(digest.as_str(), cutoff) {
            None => None,
            Some(i) => {
                match (
                    cipher.decrypt(self.rows[i].token_id.as_str()),
                    cipher.decrypt(self.rows[i].token_secret.as_str()),
                ) {
                    (Some(id), Some(secret)) => Some((id, secret)),
                    _ => None,
                }
            },
        }
    }

    /// Removes a refresh token.
    pub fn delete_refresh_token(&mut self, token: &str)
        ensures
            final(self).rows@ == without(old(self).rows@, crypto::sha256_text(token@)),
    {
        let digest = hash_token(token);
        self.remove_token(digest.as_str());
    }

    /// Removes the tokens that have expired.
    pub fn cleanup_expired_tokens(&mut self, now: i64, ttl_secs: u64)
        requires
            0 <= now,
            ttl_secs <= i64::MAX,
        ensures
            final(self).rows@ == stored_after(old(self).rows@, now - ttl_secs),
    {
        let cutoff: i64 = cutoff_secs(now, ttl_secs);
        self.remove_until(cutoff);
    }
}

// --- Laws ---

/// No row for the token is left among the rows for others.
proof fn lemma_without_has_none(rows: Seq<TokenRow>, token: Seq<char>, cutoff: int, i: int)
    requires
        0 <= i,
    ensures
        valid_row(without(rows, token), token, cutoff, i) is None,
    decreases without(rows, token).len() - i,
{
    let left = without(rows, token);
    if i < left.len() {
        assert(left[i].token@ != token) by {
            broadcast use vstd::seq_lib::group_filter_ensures;

        }
        lemma_without_has_none(rows, token, cutoff, i + 1);
    }
}

/// A row behind rows of which none will do is found if it does.
proof fn lemma_last_row_is_found(
    rows: Seq<TokenRow>,
    row: TokenRow,
    token: Seq<char>,
    cutoff: int,
    i: int,
)
    requires
        0 <= i <= rows.len(),
        valid_row(rows, token, cutoff, i) is None,
    ensures
        valid_row(rows.push(row), token, cutoff, i) == if row.token@ == token && row.created_at
            > cutoff {
            Some(row)
        } else {
            None
        },
    decreases rows.len() - i,
{
    if i < rows.len() {
        assert(rows.push(row)[i] == rows[i]);
        lemma_last_row_is_found(rows, row, token, cutoff, i + 1);
    } else {
        assert(rows.push(row)[i] == row);
        assert(valid_row(rows.push(row), token, cutoff, i + 1) is None);
    }
}

/// The credentials that were stored for an access token are given back for it
/// until it expires.
pub proof fn law_access_token_gives_credentials(
    before: Seq<TokenRow>,
    after: Seq<TokenRow>,
    key: Seq<u8>,
    token: Seq<char>,
    id: Seq<char>,
    secret: Seq<char>,
    stored_at: i64,
    cutoff: int,
)
    requires
        after.len() > 0,
        after.drop_last() == without(before, crypto::sha256_text(token)),
        is_row_for(after.last(), key, crypto::sha256_text(token), id, secret, stored_at),
        stored_at > cutoff,
    ensures
        access_answer(after, key, token, cutoff) == Some((id, secret)),
{
    let digest = crypto::sha256_text(token);
    lemma_without_has_none(before, digest, cutoff, 0);
    lemma_last_row_is_found(after.drop_last(), after.last(), digest, cutoff, 0);
    assert(after.drop_last().push(after.last()) =~= after);
}

/// A table that is full of unexpired tokens gives nothing for a new one, before
/// and after an attempt to store it.
pub proof fn law_full_table_takes_no_token(
    rows: Seq<TokenRow>,
    key: Seq<u8>,
    token: Seq<char>,
    cutoff: int,
)
    requires
        rows.len() >= MAX_ACCESS_TOKENS,
        forall|i: int| 0 <= i < rows.len() ==> (#[trigger] rows[i]).created_at > cutoff,
        forall|i: int|
            0 <= i < rows.len() ==> (#[trigger] rows[i]).token@ != crypto::sha256_text(token)
                && rows[i].token@ != token,
    ensures
        kept_access_rows(rows, cutoff) == rows,
        without(rows, crypto::sha256_text(token)).len() >= MAX_ACCESS_TOKENS,
        access_answer(rows, key, token, cutoff) is None,
{
    let digest = crypto::sha256_text(token);
    lemma_stored_after_all(rows, cutoff);
    lemma_without_absent(rows, digest);
    lemma_without_has_none(rows, digest, cutoff, 0);
    lemma_without_absent(rows, token);
    lemma_without_has_none(rows, token, cutoff, 0);
}

proof fn lemma_without_absent(rows: Seq<TokenRow>, token: Seq<char>)
    requires
        forall|i: int| 0 <= i < rows.len() ==> (#[trigger] rows[i]).token@ != token,
    ensures
        without(rows, token) == rows,
    decreases rows.len(),
{
    reveal(Seq::filter);
    if rows.len() > 0 {
        lemma_without_absent(rows.drop_last(), token);
        assert(rows[rows.len() - 1].token@ != token);
        assert(rows.drop_last().push(rows.last()) =~= rows);
    }
}

proof fn lemma_stored_after_all(rows: Seq<TokenRow>, cutoff: int)
    requires
        forall|i: int| 0 <= i < rows.len() ==> (#[trigger] rows[i]).created_at > cutoff,
    ensures
        stored_after(rows, cutoff) == rows,
    decreases rows.len(),
{
    reveal(Seq::filter);
    if rows.len() > 0 {
        lemma_stored_after_all(rows.drop_last(), cutoff);
        assert(rows[rows.len() - 1].created_at > cutoff);
        assert(rows.drop_last().push(rows.last()) =~= rows);
    }
}

/// The credentials that were stored for a refresh token are given back for it
/// until it expires, and not after.
pub proof fn law_refresh_token_gives_credentials(
    before: Seq<TokenRow>,
    after: Seq<TokenRow>,
    key: Seq<u8>,
    token: Seq<char>,
    id: Seq<char>,
    secret: Seq<char>,
    stored_at: i64,
    cutoff: int,
)
    requires
        after.len() > 0,
        after.drop_last() == without(before, crypto::sha256_text(token)),
        is_row_for(after.last(), key, crypto::sha256_text(token), id, secret, stored_at),
    ensures
        refresh_answer(after, key, token, cutoff) == if stored_at > cutoff {
            Some((id, secret))
        } else {
            None
        },
{
    let digest = crypto::sha256_text(token);
    lemma_without_has_none(before, digest, cutoff, 0);
    lemma_last_row_is_found(after.drop_last(), after.last(), digest, cutoff, 0);
    assert(after.drop_last().push(after.last()) =~= after);
}

/// A refresh token that was removed gives nothing.
pub proof fn law_deleted_token_gives_nothing(
    rows: Seq<TokenRow>,
    key: Seq<u8>,
    token: Seq<char>,
    cutoff: int,
)
    ensures
        refresh_answer(without(rows, crypto::sha256_text(token)), key, token, cutoff) is None,
{
    lemma_without_has_none(rows, crypto::sha256_text(token), cutoff, 0);
}

/// Removing expired tokens changes no answer: an expired token gives nothing
/// before and after.
pub proof fn law_cleanup_changes_no_answer(rows: Seq<TokenRow>, token: Seq<char>, cutoff: int)
    ensures
        access_row(stored_after(rows, cutoff), token, cutoff) == access_row(rows, token, cutoff),
        valid_row(stored_after(rows, cutoff), crypto::sha256_text(token), cutoff, 0) == valid_row(
            rows,
            crypto::sha256_text(token),
            cutoff,
            0,
        ),
{
    lemma_cleanup_keeps_rows(rows, token, cutoff);
    lemma_cleanup_keeps_rows(rows, crypto::sha256_text(token), cutoff);
}

proof fn lemma_cleanup_keeps_rows(rows: Seq<TokenRow>, token: Seq<char>, cutoff: int)
    ensures
        valid_row(stored_after(rows, cutoff), token, cutoff, 0) == valid_row(
            rows,
            token,
            cutoff,
            0,
        ),
    decreases rows.len(),
{
    reveal(Seq::filter);
    let keep = |r: TokenRow| r.created_at > cutoff;
    if rows.len() == 0 {
        assert(rows.filter(keep) =~= rows);
    } else {
        let init = rows.drop_last();
        let last = rows.last();
        lemma_cleanup_keeps_rows(init, token, cutoff);
        assert(init.push(last) =~= rows);
        lemma_row_with_last(init, last, token, cutoff, 0);
        if keep(last) {
            assert(rows.filter(keep) =~= init.filter(keep).push(last));
            lemma_row_with_last(init.filter(keep), last, token, cutoff, 0);
        } else {
            assert(rows.filter(keep) =~= init.filter(keep));
        }
    }
}

/// One more row matters only where none of the others will do.
proof fn lemma_row_with_last(
    rows: Seq<TokenRow>,
    row: TokenRow,
    token: Seq<char>,
    cutoff: int,
    i: int,
)
    requires
        0 <= i <= rows.len(),
    ensures
        valid_row(rows.push(row), token, cutoff, i) == match valid_row(rows, token, cutoff, i) {
            Some(r) => Some(r),
            None => if row.token@ == token && row.created_at > cutoff {
                Some(row)
            } else {
                None
            },
        },
    decreases rows.len() - i,
{
    if i < rows.len() {
        assert(rows.push(row)[i] == rows[i]);
        lemma_row_with_last(rows, row, token, cutoff, i + 1);
    } else {
        assert(rows.push(row)[i] == row);
        assert(valid_row(rows.push(row), token, cutoff, i + 1) is None);
    }
}

/// An old row is used as it is and then encrypted: the next lookup by the same
/// token gives the same credentials, now from encrypted ones.
pub proof fn law_old_row_keeps_its_credentials(
    before: Seq<TokenRow>,
    after: Seq<TokenRow>,
    key: Seq<u8>,
    token: Seq<char>,
    cutoff: int,
)
    requires
        valid_row(before, crypto::sha256_text(token), cutoff, 0) is None,
        token != crypto::sha256_text(token),
        access_row(before, token, cutoff) matches Some(row) && is_reencrypted(
            before,
            after,
            key,
            token,
            row.token_id@,
            row.token_secret@,
        ),
    ensures
        access_answer(after, key, token, cutoff) == Some(
            (
                access_row(before, token, cutoff)->0.token_id@,
                access_row(before, token, cutoff)->0.token_secret@,
            ),
        ),
{
    let row = access_row(before, token, cutoff)->0;
    lemma_reencrypted_lookup(
        before,
        after,
        key,
        token,
        row.token_id@,
        row.token_secret@,
        cutoff,
        0,
    );
}

proof fn lemma_reencrypted_lookup(
    before: Seq<TokenRow>,
    after: Seq<TokenRow>,
    key: Seq<u8>,
    token: Seq<char>,
    id: Seq<char>,
    secret: Seq<char>,
    cutoff: int,
    i: int,
)
    requires
        0 <= i <= before.len(),
        is_reencrypted(before, after, key, token, id, secret),
        token != crypto::sha256_text(token),
    ensures
        valid_row(after, crypto::sha256_text(token), cutoff, i) == valid_row(
            before,
            crypto::sha256_text(token),
            cutoff,
            i,
        ),
        match valid_row(before, token, cutoff, i) {
            Some(_) => valid_row(after, token, cutoff, i) matches Some(r) && credentials(key, r)
                == Some((id, secret)),
            None => valid_row(after, token, cutoff, i) is None,
        },
    decreases before.len() - i,
{
    if i < before.len() {
        assert(after[i].token@ == before[i].token@);
        lemma_reencrypted_lookup(before, after, key, token, id, secret, cutoff, i + 1);
    }
}

} // verus!
