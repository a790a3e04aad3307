//! The primitive tag codes of the wire protocol.
//!
//! A tagged value starts with one of these bytes.  `UNDEFINED` never appears
//! standalone on the wire: inside attribute metadata it means "polymorphic,
//! tag-prefixed on the wire".

use vstd::prelude::*;

verus! {

pub const NULL: u8 = 0;

pub const BOOL: u8 = 1;

pub const CHAR: u8 = 2;

pub const INT: u8 = 3;

pub const FLOAT: u8 = 4;

pub const NODE: u8 = 5;

pub const NODE_TIME: u8 = 6;

pub const NODE_INDEX: u8 = 7;

pub const NODE_LIST: u8 = 8;

pub const NODE_GEO: u8 = 9;

pub const GEO: u8 = 10;

pub const TIME: u8 = 11;

pub const DURATION: u8 = 12;

pub const ENUM: u8 = 14;

pub const OBJECT: u8 = 15;

pub const FN: u8 = 26;

pub const UNDEFINED: u8 = 27;

pub const STR_LIT: u8 = 28;

} // verus!
