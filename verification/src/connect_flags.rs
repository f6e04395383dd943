//! The CONNECT flag byte: one bit per option, the will QoS in two bits.

use vstd::prelude::*;
use crate::base::{DecodeError, QoS, spec_qos_value};
use crate::byte_array::ByteArray;

verus! {

/// The options a client states in CONNECT.
#[derive(Debug, Clone, Copy, PartialEq, Eq, Structural)]
pub struct ConnectFlags {
    pub username: bool,
    pub password: bool,
    pub will_retain: bool,
    pub will_qos: QoS,
    pub will: bool,
    pub clean_session: bool,
}

/// The wire byte of a flag set; bit 0 is reserved and stays zero.
pub open spec fn spec_connect_flags_byte(f: ConnectFlags) -> u8 {
    ((if f.username {
        128int
    } else {
        0int
    }) + (if f.password {
        64int
    } else {
        0int
    }) + (if f.will_retain {
        32int
    } else {
        0int
    }) + spec_qos_value(f.will_qos) * 8 + (if f.will {
        4int
    } else {
        0int
    }) + (if f.clean_session {
        2int
    } else {
        0int
    })) as u8
}

impl ConnectFlags {
    /// The flag set with all options off.
    pub open spec fn spec_default() -> ConnectFlags {
        ConnectFlags {
            username: false,
            password: false,
            will_retain: false,
            will_qos: QoS::AtMostOnce,
            will: false,
            clean_session: false,
        }
    }

    /// All options off, as in a minimal CONNECT.
    pub fn new() -> (r: Self)
        ensures
            r == (ConnectFlags {
                username: false,
                password: false,
                will_retain: false,
                will_qos: QoS::AtMostOnce,
                will: false,
                clean_session: false,
            }),
    {
        ConnectFlags {
            username: false,
            password: false,
            will_retain: false,
            will_qos: QoS::AtMostOnce,
            will: false,
            clean_session: false,
        }
    }

    /// The flag byte on the wire.
    pub fn to_byte(&self) -> (r: u8)
        ensures
            r == spec_connect_flags_byte(*self),
    {
        let u: u8 = if self.username {
            128
        } else {
            0
        };
        let p: u8 = if self.password {
            64
        } else {
            0
        };
        let wr: u8 = if self.will_retain {
            32
        } else {
            0
        };
        let w: u8 = if self.will {
            4
        } else {
            0
        };
        let cs: u8 = if self.clean_session {
            2
        } else {
            0
        };
        u + p + wr + self.will_qos.value() * 8 + w + cs
    }

    /// Read a flag byte; the reserved bit and a will QoS of 3 are rejected.
    /// A byte that is some flag set's encoding is always accepted, as that
    /// flag set.
    pub fn decode(ba: &mut ByteArray) -> (r: Result<Self, DecodeError>)
        requires
            old(ba).wf(),
        ensures
            final(ba).wf(),
            final(ba).spec_data() == old(ba).spec_data(),
            r matches Ok(f) ==> {
                &&& old(ba).spec_remaining().len() >= 1
                &&& old(ba).spec_remaining()[0] == spec_connect_flags_byte(f)
                &&& final(ba).spec_offset() == old(ba).spec_offset() + 1
            },
            forall|f: ConnectFlags|
                old(ba).spec_remaining().len() >= 1 && old(ba).spec_remaining()[0]
                    == #[trigger] spec_connect_flags_byte(f) ==> (r matches Ok(g) && g == f),
    {
        proof {
            assert forall|f: ConnectFlags|
                old(ba).spec_remaining().len() >= 1 && old(ba).spec_remaining()[0]
                    == #[trigger] spec_connect_flags_byte(f) implies spec_connect_flags_byte(f)
                % 2 == 0 && (spec_connect_flags_byte(f) / 8) % 4 == spec_qos_value(f.will_qos) by {
                lemma_connect_flags_byte_split(f);
            }
        }
        let b = match ba.read_byte() {
            Ok(b) => b,
            Err(e) => {
                return Err(DecodeError::from_byte_array(e));
            },
        };
        if b % 2 != 0 {
            return Err(DecodeError::InvalidConnectFlags);
        }
        let qos_bits: u8 = (b / 8) % 4;
        let will_qos = match QoS::try_from(qos_bits) {
            Ok(q) => q,
            Err(e) => {
                return Err(e);
            },
        };
        let f = ConnectFlags {
            username: b >= 128,
            password: (b / 64) % 2 == 1,
            will_retain: (b / 32) % 2 == 1,
            will_qos,
            will: (b / 4) % 2 == 1,
            clean_session: (b / 2) % 2 == 1,
        };
        proof {
            assert(b == (if b >= 128 {
                128u8
            } else {
                0u8
            }) + (if (b / 64) % 2 == 1 {
                64u8
            } else {
                0u8
            }) + (if (b / 32) % 2 == 1 {
                32u8
            } else {
                0u8
            }) + ((b / 8) % 4) * 8 + (if (b / 4) % 2 == 1 {
                4u8
            } else {
                0u8
            }) + (if (b / 2) % 2 == 1 {
                2u8
            } else {
                0u8
            }) + b % 2) by (bit_vector);
            assert(spec_connect_flags_byte(f) == b);
            assert forall|g: ConnectFlags|
                old(ba).spec_remaining().len() >= 1 && old(ba).spec_remaining()[0]
                    == #[trigger] spec_connect_flags_byte(g) implies g == f by {
                lemma_connect_flags_byte_deterministic(g, f);
            }
        }
        Ok(f)
    }

    /// Whether the username flag is set.
    pub fn username(&self) -> (r: bool)
        ensures
            r == self.username,
    {
        self.username
    }

    /// Whether the password flag is set.
    pub fn password(&self) -> (r: bool)
        ensures
            r == self.password,
    {
        self.password
    }

    /// Whether the will-retain flag is set.
    pub fn will_retain(&self) -> (r: bool)
        ensures
            r == self.will_retain,
    {
        self.will_retain
    }

    /// The will quality of service.
    pub fn will_qos(&self) -> (r: QoS)
        ensures
            r == self.will_qos,
    {
        self.will_qos
    }

    /// Whether a will message is carried.
    pub fn will(&self) -> (r: bool)
        ensures
            r == self.will,
    {
        self.will
    }

    /// Whether the broker should discard prior session state.
    pub fn clean_session(&self) -> (r: bool)
        ensures
            r == self.clean_session,
    {
        self.clean_session
    }

    /// Set the username flag.
    pub fn set_username(&mut self, username: bool)
        ensures
            *final(self) == (ConnectFlags { username, ..*old(self) }),
    {
        self.username = username;
    }

    /// Set the password flag.
    pub fn set_password(&mut self, password: bool)
        ensures
            *final(self) == (ConnectFlags { password, ..*old(self) }),
    {
        self.password = password;
    }

    /// Set the will-retain flag.
    pub fn set_will_retain(&mut self, will_retain: bool)
        ensures
            *final(self) == (ConnectFlags { will_retain, ..*old(self) }),
    {
        self.will_retain = will_retain;
    }

    /// Set the will quality of service.
    pub fn set_will_qos(&mut self, will_qos: QoS)
        ensures
            *final(self) == (ConnectFlags { will_qos, ..*old(self) }),
    {
        self.will_qos = will_qos;
    }

    /// Set whether a will message is carried.
    pub fn set_will(&mut self, will: bool)
        ensures
            *final(self) == (ConnectFlags { will, ..*old(self) }),
    {
        self.will = will;
    }

    /// Set whether the broker should discard prior session state.
    pub fn set_clean_session(&mut self, clean_session: bool)
        ensures
            *final(self) == (ConnectFlags { clean_session, ..*old(self) }),
    {
        self.clean_session = clean_session;
    }
}

/// The flag byte splits back into its bits: it is even and its QoS bits
/// carry the will QoS.
proof fn lemma_connect_flags_byte_split(f: ConnectFlags)
    ensures
        spec_connect_flags_byte(f) % 2 == 0,
        (spec_connect_flags_byte(f) / 8) % 4 == spec_qos_value(f.will_qos),
{
    let b = spec_connect_flags_byte(f);
    let u: u8 = if f.username {
        128
    } else {
        0
    };
    let p: u8 = if f.password {
        64
    } else {
        0
    };
    let wr: u8 = if f.will_retain {
        32
    } else {
        0
    };
    let q = spec_qos_value(f.will_qos);
    let w: u8 = if f.will {
        4
    } else {
        0
    };
    let cs: u8 = if f.clean_session {
        2
    } else {
        0
    };
    assert(b == u + p + wr + q * 8 + w + cs);
    assert(b % 2 == 0 && (b / 8) % 4 == q) by (bit_vector)
        requires
            b == u + p + wr + q * 8 + w + cs,
            u == 128 || u == 0,
            p == 64 || p == 0,
            wr == 32 || wr == 0,
            w == 4 || w == 0,
            cs == 2 || cs == 0,
            q <= 2,
    ;
}

/// Equal flag bytes come from equal flag sets.
proof fn lemma_connect_flags_byte_deterministic(f1: ConnectFlags, f2: ConnectFlags)
    requires
        spec_connect_flags_byte(f1) == spec_connect_flags_byte(f2),
    ensures
        f1 == f2,
{
    let u1: u8 = if f1.username {
        128
    } else {
        0
    };
    let p1: u8 = if f1.password {
        64
    } else {
        0
    };
    let wr1: u8 = if f1.will_retain {
        32
    } else {
        0
    };
    let q1 = spec_qos_value(f1.will_qos);
    let w1: u8 = if f1.will {
        4
    } else {
        0
    };
    let cs1: u8 = if f1.clean_session {
        2
    } else {
        0
    };
    let u2: u8 = if f2.username {
        128
    } else {
        0
    };
    let p2: u8 = if f2.password {
        64
    } else {
        0
    };
    let wr2: u8 = if f2.will_retain {
        32
    } else {
        0
    };
    let q2 = spec_qos_value(f2.will_qos);
    let w2: u8 = if f2.will {
        4
    } else {
        0
    };
    let cs2: u8 = if f2.clean_session {
        2
    } else {
        0
    };
    assert(u1 == u2 && p1 == p2 && wr1 == wr2 && q1 == q2 && w1 == w2 && cs1 == cs2)
        by (bit_vector)
        requires
            u1 + p1 + wr1 + q1 * 8 + w1 + cs1 == u2 + p2 + wr2 + q2 * 8 + w2 + cs2,
            u1 == 128 || u1 == 0,
            p1 == 64 || p1 == 0,
            wr1 == 32 || wr1 == 0,
            w1 == 4 || w1 == 0,
            cs1 == 2 || cs1 == 0,
            q1 <= 2,
            u2 == 128 || u2 == 0,
            p2 == 64 || p2 == 0,
            wr2 == 32 || wr2 == 0,
            w2 == 4 || w2 == 0,
            cs2 == 2 || cs2 == 0,
            q2 <= 2,
    ;
}

impl Default for ConnectFlags {
    fn default() -> (r: Self)
        ensures
            r == (ConnectFlags {
                username: false,
                password: false,
                will_retain: false,
                will_qos: QoS::AtMostOnce,
                will: false,
                clean_session: false,
            }),
    {
        ConnectFlags::new()
    }
}

} // verus!
