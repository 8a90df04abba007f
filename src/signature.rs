//! The closed set of structural tags found on disk.
use vstd::prelude::*;

verus! {

/// `"head"` read as a little-endian `u32`.
pub const HEAD_TAG: u32 = 0x6461_6568;
/// `"regi"` read as a little-endian `u32`.
pub const REGI_TAG: u32 = 0x6967_6572;
/// `"loge"` read as a little-endian `u32`.
pub const LOGE_TAG: u32 = 0x6567_6f6c;
/// `"zero"` read as a little-endian `u32`.
pub const ZERO_TAG: u32 = 0x6f72_657a;
/// `"desc"` read as a little-endian `u32`.
pub const DESC_TAG: u32 = 0x6373_6564;
/// `"data"` read as a little-endian `u32`.
pub const DATA_TAG: u32 = 0x6174_6164;
/// `"vhdxfile"` read as a little-endian `u64`.
pub const VHDXFILE_TAG: u64 = 0x656c_6966_7864_6876;
/// `"metadata"` read as a little-endian `u64`.
pub const METADATA_TAG: u64 = 0x6174_6164_6174_656d;

/// A structure's magic value. A tag outside the known set is kept as
/// `Unknown`, holding its raw bytes read in little-endian order.
#[derive(Debug, Clone, Copy, PartialEq, Eq, Structural)]
pub enum Signature {
    Vhdxfile,
    Head,
    Regi,
    Loge,
    Zero,
    Data,
    Desc,
    MetaData,
    Unknown(u64),
}

/// Classification of a 4-byte tag.
pub open spec fn tag4_of(v: u32) -> Signature {
    if v == HEAD_TAG {
        Signature::Head
    } else if v == REGI_TAG {
        Signature::Regi
    } else if v == LOGE_TAG {
        Signature::Loge
    } else if v == ZERO_TAG {
        Signature::Zero
    } else if v == DESC_TAG {
        Signature::Desc
    } else if v == DATA_TAG {
        Signature::Data
    } else {
        Signature::Unknown(v as u64)
    }
}

/// Classification of an 8-byte tag.
pub open spec fn tag8_of(v: u64) -> Signature {
    if v == VHDXFILE_TAG {
        Signature::Vhdxfile
    } else if v == METADATA_TAG {
        Signature::MetaData
    } else {
        Signature::Unknown(v)
    }
}

impl Signature {
    /// The raw tag value this signature stands for.
    pub open spec fn spec_tag_value(self) -> u64 {
        match self {
            Signature::Vhdxfile => VHDXFILE_TAG,
            Signature::Head => HEAD_TAG as u64,
            Signature::Regi => REGI_TAG as u64,
            Signature::Loge => LOGE_TAG as u64,
            Signature::Zero => ZERO_TAG as u64,
            Signature::Data => DATA_TAG as u64,
            Signature::Desc => DESC_TAG as u64,
            Signature::MetaData => METADATA_TAG,
            Signature::Unknown(v) => v,
        }
    }

    pub fn tag_value(&self) -> (r: u64)
        ensures
            r == self.spec_tag_value(),
    {
        match self {
            Signature::Vhdxfile => VHDXFILE_TAG,
            Signature::Head => HEAD_TAG as u64,
            Signature::Regi => REGI_TAG as u64,
            Signature::Loge => LOGE_TAG as u64,
            Signature::Zero => ZERO_TAG as u64,
            Signature::Data => DATA_TAG as u64,
            Signature::Desc => DESC_TAG as u64,
            Signature::MetaData => METADATA_TAG,
            Signature::Unknown(v) => *v,
        }
    }

    /// Decodes a 4-byte tag.
    pub fn from_tag4(v: u32) -> (r: Signature)
        ensures
            r == tag4_of(v),
    {
        if v == HEAD_TAG {
            Signature::Head
        } else if v == REGI_TAG {
            Signature::Regi
        } else if v == LOGE_TAG {
            Signature::Loge
        } else if v == ZERO_TAG {
            Signature::Zero
        } else if v == DESC_TAG {
            Signature::Desc
        } else if v == DATA_TAG {
            Signature::Data
        } else {
            Signature::Unknown(v as u64)
        }
    }

    /// Decodes an 8-byte tag.
    pub fn from_tag8(v: u64) -> (r: Signature)
        ensures
            r == tag8_of(v),
    {
        if v == VHDXFILE_TAG {
            Signature::Vhdxfile
        } else if v == METADATA_TAG {
            Signature::MetaData
        } else {
            Signature::Unknown(v)
        }
    }
}

/// Decoding a 4-byte tag keeps its value.
pub proof fn lemma_tag4_value(v: u32)
    ensures
        tag4_of(v).spec_tag_value() == v as u64,
{
}

} // verus!
