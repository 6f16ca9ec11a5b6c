//! An error as a C caller sees it.
//!
//! The caller allocates the struct, so its size depends on the ADBC revision that the caller was
//! built against. A 1.1.0 caller presets a sentinel in `vendor_code`; anything else is the 1.0.0
//! prefix, which has no room for details.

use vstd::prelude::*;
use vstd::string::*;
use vstd::utf8::encode_utf8;

use crate::error::Error;
use crate::guard::{sanitized, sanitized_cstring};
use crate::text::{push_signed, signed_decimal};

verus! {

/// What a 1.1.0 caller presets in `vendor_code`.
pub const ADBC_ERROR_VENDOR_CODE_PRIVATE_DATA: i32 = -0x8000_0000;

/// The key of the detail that carries the vendor code which the sentinel displaces.
pub const VENDOR_CODE_DETAIL_KEY: &'static str = "adbc.spanner.vendor_code";

/// The keys and values of an error's details, as bytes.
pub type Details = Vec<(Vec<u8>, Vec<u8>)>;

/// What is written into the caller's struct. Details are present for a 1.1.0 caller, and only then:
/// they mark the struct as written even where there are none to report.
#[derive(Debug)]
pub struct ExportedError {
    pub message: Vec<u8>,
    pub vendor_code: i32,
    pub sqlstate: [i8; 5],
    pub details: Option<Details>,
}

/// Whether the struct that holds this vendor code is of the 1.1.0 layout.
pub open spec fn is_v110(vendor_code: i32) -> bool {
    vendor_code == ADBC_ERROR_VENDOR_CODE_PRIVATE_DATA
}

/// The details of an error, as bytes.
pub open spec fn detail_bytes(details: Seq<(String, Vec<u8>)>) -> Seq<(Seq<u8>, Seq<u8>)> {
    details.map_values(|d: (String, Vec<u8>)| (sanitized(encode_utf8(d.0@)), d.1@))
}

/// Details, with bytes as sequences.
pub open spec fn details_view(details: Seq<(Vec<u8>, Vec<u8>)>) -> Seq<(Seq<u8>, Seq<u8>)> {
    details.map_values(|d: (Vec<u8>, Vec<u8>)| (d.0@, d.1@))
}

/// The detail that carries a vendor code, in decimal.
pub open spec fn vendor_code_detail(vendor_code: i32) -> (Seq<u8>, Seq<u8>) {
    (
        sanitized(encode_utf8(VENDOR_CODE_DETAIL_KEY@)),
        encode_utf8(signed_decimal(vendor_code as int)),
    )
}

/// The details that a 1.1.0 caller gets: the error's own, and after them its vendor code, if it has
/// one.
pub open spec fn exported_details(error: Error) -> Seq<(Seq<u8>, Seq<u8>)> {
    let own = match error.details {
        Some(details) => detail_bytes(details@),
        None => Seq::empty(),
    };
    if error.vendor_code != 0 {
        own.push(vendor_code_detail(error.vendor_code))
    } else {
        own
    }
}

fn collected(error: &Error) -> (r: Details)
    ensures
        details_view(r@) == exported_details(*error),
{
    let mut out: Details = Vec::new();
    match &error.details {
        Some(details) => {
            let ghost all = detail_bytes(details@);
            let mut i: usize = 0;
            while i < details.len()
                invariant
                    i <= details@.len(),
                    all == detail_bytes(details@),
                    details_view(out@) == all.take(i as int),
                decreases details@.len() - i,
            {
                let detail = (sanitized_cstring(details[i].0.as_str()), details[i].1.clone());
                assert(detail.1@ =~= details@[i as int].1@);
                assert(details_view(out@.push(detail)) =~= details_view(out@).push(all[i as int]));
                out.push(detail);
                i = i + 1;
                assert(all.take(i as int) =~= all.take(i - 1).push(all[i - 1]));
            }
            assert(all.take(all.len() as int) =~= all);
        },
        None => {
            assert(details_view(out@) =~= Seq::empty());
        },
    }
    if error.vendor_code != 0 {
        let mut code = String::new();
        push_signed(&mut code, error.vendor_code as i128);
        assert(code@ =~= signed_decimal(error.vendor_code as int));
        let detail = (sanitized_cstring(VENDOR_CODE_DETAIL_KEY), code.as_str().as_bytes_vec());
        assert(details_view(out@.push(detail)) =~= details_view(out@).push(
            vendor_code_detail(error.vendor_code),
        ));
        out.push(detail);
    }
    out
}

/// The vendor code that is written into a struct whose `vendor_code` holds `out_vendor_code`.
pub open spec fn exported_vendor_code(out_vendor_code: i32, vendor_code: i32) -> i32 {
    if is_v110(out_vendor_code) {
        ADBC_ERROR_VENDOR_CODE_PRIVATE_DATA
    } else if is_v110(vendor_code) {
        0
    } else {
        vendor_code
    }
}

/// What an error is written as into a struct whose `vendor_code` holds `out_vendor_code`.
///
/// A 1.1.0 caller gets the sentinel back, since it reads the details only where it sees it, and the
/// vendor code as a detail. A 1.0.0 caller gets the vendor code, unless that happens to be the
/// sentinel: the field is the only record of how large the caller's struct is.
pub fn export_error(out_vendor_code: i32, error: &Error) -> (r: ExportedError)
    ensures
        r.message@ == sanitized(encode_utf8(error.message@)),
        r.sqlstate == error.sqlstate,
        r.vendor_code == exported_vendor_code(out_vendor_code, error.vendor_code),
        r.details is Some == is_v110(out_vendor_code),
        is_v110(out_vendor_code) ==> details_view(r.details->Some_0@) == exported_details(*error),
{
    let message = sanitized_cstring(error.message.as_str());
    if out_vendor_code == ADBC_ERROR_VENDOR_CODE_PRIVATE_DATA {
        ExportedError {
            message,
            vendor_code: ADBC_ERROR_VENDOR_CODE_PRIVATE_DATA,
            sqlstate: error.sqlstate,
            details: Some(collected(error)),
        }
    } else {
        let vendor_code: i32 = if error.vendor_code == ADBC_ERROR_VENDOR_CODE_PRIVATE_DATA {
            0
        } else {
            error.vendor_code
        };
        ExportedError { message, vendor_code, sqlstate: error.sqlstate, details: None }
    }
}

/// Writing an error never changes what layout the struct is taken to have, so the next error written
/// into it is written the same way.
pub proof fn lemma_layout_is_stable(out_vendor_code: i32, vendor_code: i32)
    ensures
        is_v110(exported_vendor_code(out_vendor_code, vendor_code)) == is_v110(out_vendor_code),
{
}

/// The details that may be read of a struct: none, unless its vendor code says that it has any.
pub open spec fn readable(vendor_code: i32, details: Option<Details>) -> Seq<(Seq<u8>, Seq<u8>)> {
    if is_v110(vendor_code) && details is Some {
        details_view(details->Some_0@)
    } else {
        Seq::empty()
    }
}

/// The number of details that a struct holds.
pub fn error_get_detail_count(vendor_code: i32, details: &Option<Details>) -> (r: i32)
    ensures
        r == if readable(vendor_code, *details).len() <= i32::MAX {
            readable(vendor_code, *details).len() as int
        } else {
            i32::MAX as int
        },
{
    if vendor_code != ADBC_ERROR_VENDOR_CODE_PRIVATE_DATA {
        return 0;
    }
    match details {
        None => 0,
        Some(details) => {
            if details.len() as u64 <= i32::MAX as u64 {
                details.len() as i32
            } else {
                i32::MAX
            }
        },
    }
}

/// The detail at an index, if there is one.
pub fn error_get_detail(vendor_code: i32, details: &Option<Details>, index: i32) -> (r: Option<
    &(Vec<u8>, Vec<u8>),
>)
    ensures
        match r {
            Some(d) => 0 <= index < readable(vendor_code, *details).len() && (d.0@, d.1@)
                == readable(vendor_code, *details)[index as int],
            None => !(0 <= index < readable(vendor_code, *details).len()),
        },
{
    if vendor_code != ADBC_ERROR_VENDOR_CODE_PRIVATE_DATA {
        return None;
    }
    match details {
        None => None,
        Some(details) => {
            if index >= 0 && (index as u64) < details.len() as u64 {
                Some(&details[index as usize])
            } else {
                None
            }
        },
    }
}

/// The error's own details keep their places, and a vendor code is always recoverable: it is what
/// the last detail reports.
pub proof fn lemma_exported_details(error: Error)
    ensures
        error.details is Some ==> detail_bytes(error.details->Some_0@).is_prefix_of(
            exported_details(error),
        ),
        error.vendor_code != 0 ==> exported_details(error).len() > 0 && exported_details(
            error,
        ).last() == vendor_code_detail(error.vendor_code),
        error.vendor_code == 0 && error.details is None ==> exported_details(error).len() == 0,
{
    if error.details is Some {
        let own = detail_bytes(error.details->Some_0@);
        assert(exported_details(error).subrange(0, own.len() as int) =~= own);
    }
}

} // verus!
