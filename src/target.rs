//! The lookup target under which the OS credential manager files a key.
use vstd::prelude::*;
use widestring::error::ContainsNul;
use widestring::U16CString;
use vstd::string::StringExecFns;
use crate::encoding::{char_units, has_nul, utf16_units};
use crate::error::CredentialError;

verus! {

#[verifier::external_type_specification]
#[verifier::external_body]
#[verifier::reject_recursive_types(C)]
pub struct ExContainsNul<C>(ContainsNul<C>);

/// The lookup target of a (service, account) pair: the two joined by `/`.
pub open spec fn target_of(service: Seq<char>, account: Seq<char>) -> Seq<char> {
    service + seq!['/'] + account
}

/// A target whose UTF-16 form has no zero code unit, but perhaps a last one
/// (which then serves as the terminator).
pub open spec fn wide_target_ok(k: Seq<char>) -> bool {
    forall|i: int| 0 <= i < utf16_units(k).len() - 1 ==> utf16_units(k)[i] != 0
}

/// The code units handed to the OS: the target's UTF-16, ending in a zero
/// terminator (which is not doubled where the text already ends in U+0000).
pub open spec fn wide_units(k: Seq<char>) -> Seq<u16> {
    let u = utf16_units(k);
    if u.len() > 0 && u.last() == 0 {
        u
    } else {
        u.push(0)
    }
}

/// Relies on widestring's `U16CString::from_str`: the text is encoded as
/// UTF-16 and refused where a zero code unit stands before the last one;
/// else a terminator is added unless the last unit is zero, and
/// `into_vec_with_nul` hands back those units.
#[verifier::external_body]
fn wide_from_str(s: &str) -> (r: Result<Vec<u16>, ContainsNul<u16>>)
    ensures
        r is Ok <==> wide_target_ok(s@),
        r matches Ok(v) ==> v@ == wide_units(s@),
{
    U16CString::from_str(s).map(|w| w.into_vec_with_nul())
}

/// The target as a string, the key under which a record is filed.
pub fn target_string(service: &str, account: &str) -> (r: String)
    ensures
        r@ == target_of(service@, account@),
{
    let mut r = String::from_str(service);
    proof {
        reveal_strlit("/");
    }
    r.append("/");
    r.append(account);
    assert(r@ =~= target_of(service@, account@));
    r
}

/// The target as nul-terminated UTF-16 code units, ready for the OS call.
pub fn lookup_target(service: &str, account: &str) -> (r: Result<Vec<u16>, CredentialError>)
    ensures
        r is Ok <==> wide_target_ok(target_of(service@, account@)),
        r is Err ==> r == Err::<Vec<u16>, CredentialError>(CredentialError::InvalidTarget),
        r matches Ok(w) ==> w@ == wide_units(target_of(service@, account@)),
{
    let target = target_string(service, account);
    match wide_from_str(target.as_str()) {
        Ok(w) => Ok(w),
        Err(_) => Err(CredentialError::InvalidTarget),
    }
}

/// Only U+0000 has a zero code unit.
pub proof fn lemma_no_nul_no_zero_unit(s: Seq<char>)
    requires
        !has_nul(s),
    ensures
        forall|j: int| 0 <= j < utf16_units(s).len() ==> utf16_units(s)[j] != 0,
    decreases s.len(),
{
    if s.len() > 0 {
        let rest = s.drop_first();
        assert(!has_nul(rest)) by {
            if rest.contains('\0') {
                let k = choose|k: int| 0 <= k < rest.len() && rest[k] == '\0';
                assert(s[k + 1] == '\0');
            }
        }
        lemma_no_nul_no_zero_unit(rest);
        let c = s[0];
        assert(c != '\0') by {
            assert(s[0] == c);
        }
        assert(forall|j: int| 0 <= j < char_units(c).len() ==> char_units(c)[j] != 0) by {
            let v = c as u32;
            vstd::utf8::char_is_scalar(c);
            if v == 0 {
                vstd::utf8::char_u32_cast(c, v);
                assert(0u32 as char == '\0');
            }
            if (v as int) < 0x10000 {
                assert(char_units(c)[0] == v as u16);
            } else {
                let w = v as int - 0x10000;
                assert(0 <= w / 0x400 <= 0x3ff);
                assert(0 <= w % 0x400 < 0x400);
                assert(char_units(c)[0] == (0xD800 + w / 0x400) as u16);
                assert(char_units(c)[1] == (0xDC00 + w % 0x400) as u16);
            }
        }
        let u = utf16_units(s);
        assert(u == char_units(c) + utf16_units(rest));
        assert forall|j: int| 0 <= j < u.len() implies u[j] != 0 by {
            if j >= char_units(c).len() {
                assert(u[j] == utf16_units(rest)[j - char_units(c).len()]);
            }
        }
    }
}

/// A target built from a service and an account without U+0000 is always
/// accepted.
pub proof fn lemma_target_ok(service: Seq<char>, account: Seq<char>)
    requires
        !has_nul(service),
        !has_nul(account),
    ensures
        wide_target_ok(target_of(service, account)),
{
    let k = target_of(service, account);
    assert(!has_nul(k)) by {
        if k.contains('\0') {
            let i = choose|i: int| 0 <= i < k.len() && k[i] == '\0';
            if i < service.len() {
                assert(service[i] == '\0');
            } else if i > service.len() {
                assert(account[i - service.len() - 1] == '\0');
            }
        }
    }
    lemma_no_nul_no_zero_unit(k);
}

} // verus!
