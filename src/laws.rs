//! What holds of the store and the migration over every input.
use vstd::prelude::*;
use vstd::utf8::*;
use crate::encoding::{
    current_blob, has_nul, is_legacy_blob, lemma_current_blob_has_zero,
    lemma_current_round_trip, lemma_zero_byte_not_legacy,
};
use crate::error::CredentialError;
use crate::store::{get_outcome, migrate_outcome};
use crate::target::{lemma_target_ok, target_of, wide_target_ok};

verus! {

/// A record that holds the 8-bit (UTF-8) bytes of a non-empty text without
/// U+0000 is migrated, and reading the key afterwards gives that text.
pub proof fn law_legacy_record_migrates(
    m: Map<Seq<char>, Seq<u8>>,
    service: Seq<char>,
    account: Seq<char>,
    t: Seq<char>,
)
    requires
        !has_nul(service),
        !has_nul(account),
        t.len() > 0,
        !has_nul(t),
        m.contains_key(target_of(service, account)),
        m[target_of(service, account)] == encode_utf8(t),
    ensures
        migrate_outcome(m, service, account).0 == Ok::<bool, CredentialError>(true),
        get_outcome(migrate_outcome(m, service, account).1, target_of(service, account))
            == Ok::<Seq<char>, CredentialError>(t),
{
    let k = target_of(service, account);
    lemma_target_ok(service, account);
    encode_utf8_valid_utf8(t);
    encode_utf8_decode_utf8(t);
    assert(encode_utf8(t).len() > 0);
    assert(is_legacy_blob(m[k]));
    lemma_current_round_trip(t);
}

/// Migrating twice: the first run rewrites the legacy record, the second
/// finds it current and changes nothing, and reading gives the text after
/// both. This holds wherever the text's current encoding does not itself
/// look like legacy data.
pub proof fn law_migrate_twice(
    m: Map<Seq<char>, Seq<u8>>,
    service: Seq<char>,
    account: Seq<char>,
    t: Seq<char>,
)
    requires
        !has_nul(service),
        !has_nul(account),
        t.len() > 0,
        !has_nul(t),
        m.contains_key(target_of(service, account)),
        m[target_of(service, account)] == encode_utf8(t),
        !is_legacy_blob(current_blob(t)),
    ensures
        ({
            let (r1, m1) = migrate_outcome(m, service, account);
            let (r2, m2) = migrate_outcome(m1, service, account);
            &&& r1 == Ok::<bool, CredentialError>(true)
            &&& r2 == Ok::<bool, CredentialError>(false)
            &&& m2 == m1
            &&& get_outcome(m1, target_of(service, account)) == Ok::<Seq<char>, CredentialError>(t)
        }),
{
    let k = target_of(service, account);
    law_legacy_record_migrates(m, service, account, t);
    encode_utf8_decode_utf8(t);
    let m1 = migrate_outcome(m, service, account).1;
    assert(m1[k] == current_blob(t));
}

/// A text with a character below U+0100 (any ASCII text) is never taken for
/// legacy data once it is stored in the current format.
pub proof fn law_current_ascii_not_legacy(t: Seq<char>, i: int)
    requires
        0 <= i < t.len(),
        (t[i] as u32) < 0x100,
    ensures
        !is_legacy_blob(current_blob(t)),
{
    lemma_current_blob_has_zero(t, i);
    lemma_zero_byte_not_legacy(current_blob(t));
}

/// Migrating a key with no record changes nothing and reports no migration;
/// the key stays unreadable.
pub proof fn law_absent_is_noop(m: Map<Seq<char>, Seq<u8>>, service: Seq<char>, account: Seq<char>)
    requires
        !m.contains_key(target_of(service, account)),
    ensures
        migrate_outcome(m, service, account).1 == m,
        migrate_outcome(m, service, account).0 == (if wide_target_ok(target_of(service, account)) {
            Ok::<bool, CredentialError>(false)
        } else {
            Err::<bool, CredentialError>(CredentialError::InvalidTarget)
        }),
        get_outcome(migrate_outcome(m, service, account).1, target_of(service, account))
            == Err::<Seq<char>, CredentialError>(CredentialError::NotFound),
{
}

/// A password written by the store and then migrated is left as it is, and
/// reads back unchanged, wherever its current encoding does not itself look
/// like legacy data.
pub proof fn law_current_record_untouched(
    m: Map<Seq<char>, Seq<u8>>,
    service: Seq<char>,
    account: Seq<char>,
    t: Seq<char>,
)
    requires
        !is_legacy_blob(current_blob(t)),
    ensures
        ({
            let m1 = m.insert(target_of(service, account), current_blob(t));
            let (r, m2) = migrate_outcome(m1, service, account);
            &&& r != Ok::<bool, CredentialError>(true)
            &&& (wide_target_ok(target_of(service, account)) ==> r == Ok::<
                bool,
                CredentialError,
            >(false))
            &&& m2 == m1
            &&& get_outcome(m2, target_of(service, account)) == Ok::<Seq<char>, CredentialError>(t)
        }),
{
    lemma_current_round_trip(t);
}

/// A record whose blob holds a zero byte is never migrated, even where the
/// rest of it reads as 8-bit text: the migration errs on the side of leaving
/// data alone.
pub proof fn law_zero_byte_untouched(
    m: Map<Seq<char>, Seq<u8>>,
    service: Seq<char>,
    account: Seq<char>,
)
    requires
        m.contains_key(target_of(service, account)),
        m[target_of(service, account)].contains(0u8),
    ensures
        migrate_outcome(m, service, account).0 != Ok::<bool, CredentialError>(true),
        wide_target_ok(target_of(service, account)) ==> migrate_outcome(m, service, account).0
            == Ok::<bool, CredentialError>(false),
        migrate_outcome(m, service, account).1 == m,
{
    lemma_zero_byte_not_legacy(m[target_of(service, account)]);
}

} // verus!
