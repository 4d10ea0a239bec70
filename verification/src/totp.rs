//! The account record pushed to the watch, and its mathematical model.
use vstd::prelude::*;

verus! {

/// One TOTP account as the watch application receives it.
#[derive(Clone, Debug)]
pub struct TOTPInfo {
    pub name: String,
    pub usr: String,
    pub key: String,
    pub algorithm: String,
    pub digits: u32,
    pub period: u32,
}

/// The contents of a [`TOTPInfo`], with its texts as character sequences.
pub ghost struct TotpModel {
    pub name: Seq<char>,
    pub usr: Seq<char>,
    pub key: Seq<char>,
    pub algorithm: Seq<char>,
    pub digits: u32,
    pub period: u32,
}

impl View for TOTPInfo {
    type V = TotpModel;

    open spec fn view(&self) -> TotpModel {
        TotpModel {
            name: self.name@,
            usr: self.usr@,
            key: self.key@,
            algorithm: self.algorithm@,
            digits: self.digits,
            period: self.period,
        }
    }
}

/// The views of a sequence of accounts.
pub open spec fn totp_views(list: Seq<TOTPInfo>) -> Seq<TotpModel> {
    list.map_values(|t: TOTPInfo| t@)
}

} // verus!
