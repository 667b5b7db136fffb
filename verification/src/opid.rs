//! The operation identifiers that `lay` gives to its operations.
//!
//! `lay` tags every operation it builds with a number from `lay::operations::opid`.
//! The functions here read those constants, so that what this crate takes from and hands to
//! `lay` carries the numbers `lay` itself uses. Their contracts are not proved: each states the
//! value that `lay` 0.1 declares.

use vstd::prelude::*;

verus! {

/// Reads `lay::operations::opid::INIT`, which `lay` declares as 1.
#[verifier::external_body]
pub(crate) fn init() -> (id: u16)
    ensures
        id == 1,
{
    lay::operations::opid::INIT
}

/// Reads `lay::operations::opid::MEAS`, which `lay` declares as 2.
#[verifier::external_body]
pub(crate) fn meas() -> (id: u16)
    ensures
        id == 2,
{
    lay::operations::opid::MEAS
}

/// Reads `lay::operations::opid::X`, which `lay` declares as 3.
#[verifier::external_body]
pub(crate) fn x() -> (id: u16)
    ensures
        id == 3,
{
    lay::operations::opid::X
}

/// Reads `lay::operations::opid::Y`, which `lay` declares as 4.
#[verifier::external_body]
pub(crate) fn y() -> (id: u16)
    ensures
        id == 4,
{
    lay::operations::opid::Y
}

/// Reads `lay::operations::opid::Z`, which `lay` declares as 5.
#[verifier::external_body]
pub(crate) fn z() -> (id: u16)
    ensures
        id == 5,
{
    lay::operations::opid::Z
}

/// Reads `lay::operations::opid::H`, which `lay` declares as 6.
#[verifier::external_body]
pub(crate) fn h() -> (id: u16)
    ensures
        id == 6,
{
    lay::operations::opid::H
}

/// Reads `lay::operations::opid::S`, which `lay` declares as 7.
#[verifier::external_body]
pub(crate) fn s() -> (id: u16)
    ensures
        id == 7,
{
    lay::operations::opid::S
}

/// Reads `lay::operations::opid::SDG`, which `lay` declares as 8.
#[verifier::external_body]
pub(crate) fn sdg() -> (id: u16)
    ensures
        id == 8,
{
    lay::operations::opid::SDG
}

/// Reads `lay::operations::opid::T`, which `lay` declares as 9.
#[verifier::external_body]
pub(crate) fn t() -> (id: u16)
    ensures
        id == 9,
{
    lay::operations::opid::T
}

/// Reads `lay::operations::opid::TDG`, which `lay` declares as 10.
#[verifier::external_body]
pub(crate) fn tdg() -> (id: u16)
    ensures
        id == 10,
{
    lay::operations::opid::TDG
}

/// Reads `lay::operations::opid::CX`, which `lay` declares as 11.
#[verifier::external_body]
pub(crate) fn cx() -> (id: u16)
    ensures
        id == 11,
{
    lay::operations::opid::CX
}

/// Reads `lay::operations::opid::USERDEF`, which `lay` declares as 256.
#[verifier::external_body]
pub(crate) fn userdef() -> (id: u16)
    ensures
        id == 256,
{
    lay::operations::opid::USERDEF
}

} // verus!
