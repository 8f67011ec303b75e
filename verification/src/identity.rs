//! On-chain identity resolution: display names and judgement counts.
//!
//! A display field arrives as raw bytes.  It is decoded as UTF-8 and the
//! control characters are removed; any other encoding of the field shows as
//! `???`.  Resolution follows at most one hop: an account without an
//! identity but with a parent takes `{parent}/{sub-name}`.

use vstd::prelude::*;
use vstd::utf8::{decode_utf8, valid_utf8};

verus! {

/// A raw identity field: either printable-ish bytes or a hash of them.
pub enum IdentityData {
    Raw(Vec<u8>),
    BlakeTwo256(Vec<u8>),
    Sha256(Vec<u8>),
    Keccak256(Vec<u8>),
    ShaThree256(Vec<u8>),
    Empty,
}

/// View of an identity field.
pub enum IdentityDataV {
    Raw(Seq<u8>),
    BlakeTwo256(Seq<u8>),
    Sha256(Seq<u8>),
    Keccak256(Seq<u8>),
    ShaThree256(Seq<u8>),
    Empty,
}

impl View for IdentityData {
    type V = IdentityDataV;

    open spec fn view(&self) -> IdentityDataV {
        match self {
            IdentityData::Raw(b) => IdentityDataV::Raw(b@),
            IdentityData::BlakeTwo256(b) => IdentityDataV::BlakeTwo256(b@),
            IdentityData::Sha256(b) => IdentityDataV::Sha256(b@),
            IdentityData::Keccak256(b) => IdentityDataV::Keccak256(b@),
            IdentityData::ShaThree256(b) => IdentityDataV::ShaThree256(b@),
            IdentityData::Empty => IdentityDataV::Empty,
        }
    }
}

/// A registrar's verdict on an identity.
#[derive(Clone, Copy)]
pub enum Judgement {
    Unknown,
    FeePaid(u128),
    Reasonable,
    KnownGood,
    OutOfDate,
    LowQuality,
    Erroneous,
}

impl View for Judgement {
    type V = Judgement;

    open spec fn view(&self) -> Judgement {
        *self
    }
}

/// An identity as registered on chain: the display field, the registrars'
/// judgements, and the number of sub-accounts.
pub struct IdentityRegistration {
    pub display: IdentityData,
    pub judgements: Vec<Judgement>,
    pub sub_accounts: u32,
}

/// View of a registration.
pub struct IdentityRegistrationV {
    pub display: IdentityDataV,
    pub judgements: Seq<Judgement>,
    pub sub_accounts: u32,
}

impl View for IdentityRegistration {
    type V = IdentityRegistrationV;

    open spec fn view(&self) -> IdentityRegistrationV {
        IdentityRegistrationV {
            display: self.display@,
            judgements: self.judgements@,
            sub_accounts: self.sub_accounts,
        }
    }
}

/// The parent of a sub-account: its stash, the sub-account's name under the
/// parent, and the parent's own registration when it has one.
pub struct ParentIdentity {
    pub stash: String,
    pub sub_name: IdentityData,
    pub registration: Option<IdentityRegistration>,
}

/// View of a parent identity.
pub struct ParentIdentityV {
    pub stash: Seq<char>,
    pub sub_name: IdentityDataV,
    pub registration: Option<IdentityRegistrationV>,
}

impl View for ParentIdentity {
    type V = ParentIdentityV;

    open spec fn view(&self) -> ParentIdentityV {
        ParentIdentityV {
            stash: self.stash@,
            sub_name: self.sub_name@,
            registration: match self.registration {
                Some(r) => Some(r@),
                None => None,
            },
        }
    }
}

/// Everything the chain answers about one account's identity: its own
/// registration, and its parent when it is a sub-account.
pub struct IdentityInput {
    pub own: Option<IdentityRegistration>,
    pub parent: Option<ParentIdentity>,
}

/// View of an identity input.
pub struct IdentityInputV {
    pub own: Option<IdentityRegistrationV>,
    pub parent: Option<ParentIdentityV>,
}

impl View for IdentityInput {
    type V = IdentityInputV;

    open spec fn view(&self) -> IdentityInputV {
        IdentityInputV {
            own: match self.own {
                Some(r) => Some(r@),
                None => None,
            },
            parent: match self.parent {
                Some(p) => Some(p@),
                None => None,
            },
        }
    }
}

/// The C0 and C1 control characters, plus delete.
pub open spec fn is_control_char(c: char) -> bool {
    (c as u32) < 32 || (127 <= c as u32 && c as u32 <= 159)
}

/// A display field's name: the bytes decoded as UTF-8 with control
/// characters removed, or empty when they are not UTF-8.
pub open spec fn display_name(b: Seq<u8>) -> Seq<char> {
    if valid_utf8(b) {
        decode_utf8(b).filter(|c: char| !is_control_char(c))
    } else {
        Seq::empty()
    }
}

/// Relies on `String::from_utf8`: decodes the bytes exactly when they are
/// valid UTF-8, to the character sequence vstd's UTF-8 model gives.
#[verifier::external_body]
fn decode_utf8_bytes(b: &Vec<u8>) -> (r: Option<String>)
    ensures
        match r {
            Some(s) => valid_utf8(b@) && s@ == decode_utf8(b@),
            None => !valid_utf8(b@),
        },
{
    match String::from_utf8(b.clone()) {
        Ok(s) => Some(s),
        Err(_) => None,
    }
}

/// Removes the control characters from a string.
fn strip_unprintable(s: &str) -> (r: String)
    ensures
        r@ == s@.filter(|c: char| !is_control_char(c)),
{
    let len = s.unicode_len();
    let mut out = String::new();
    let mut i: usize = 0;
    proof {
        reveal(Seq::filter);
        assert(s@.take(0) =~= Seq::<char>::empty());
        assert(out@ =~= s@.take(0).filter(|c: char| !is_control_char(c)));
    }
    while i < len
        invariant
            0 <= i <= len,
            len == s@.len(),
            out@ == s@.take(i as int).filter(|c: char| !is_control_char(c)),
        decreases len - i,
    {
        let c = s.get_char(i);
        let cu = c as u32;
        proof {
            reveal(Seq::filter);
            assert(s@.take(i as int + 1).drop_last() =~= s@.take(i as int));
            assert(s@.take(i as int + 1).last() == s@[i as int]);
        }
        if !(cu < 32 || (127 <= cu && cu <= 159)) {
            let piece = s.substring_char(i, i + 1);
            out.append(piece);
            proof {
                assert(piece@ =~= seq![s@[i as int]]);
                assert(out@ =~= s@.take(i as int + 1).filter(|c: char| !is_control_char(c)));
            }
        }
        i += 1;
    }
    proof {
        assert(s@.take(len as int) =~= s@);
    }
    out
}

/// Decodes a raw display field: UTF-8 with control characters removed, or
/// empty when the bytes are not UTF-8.
pub fn parse_display_name(bytes: Vec<u8>) -> (r: String)
    ensures
        r@ == display_name(bytes@),
{
    match decode_utf8_bytes(&bytes) {
        Some(s) => strip_unprintable(s.as_str()),
        None => String::new(),
    }
}

/// The name an identity field shows as.
pub open spec fn identity_name(d: IdentityDataV) -> Seq<char> {
    match d {
        IdentityDataV::Raw(b) => display_name(b),
        _ => seq!['?', '?', '?'],
    }
}

/// Renders an identity field: the decoded raw bytes, or `???` for a hashed
/// field.
pub fn parse_identity_data(data: IdentityData) -> (r: String)
    ensures
        r@ == identity_name(data@),
{
    match data {
        IdentityData::Raw(bytes) => parse_display_name(bytes),
        _ => {
            proof {
                reveal_strlit("???");
            }
            let s = String::from_str("???");
            proof {
                assert(s@ =~= seq!['?', '?', '?']);
            }
            s
        },
    }
}

/// How many judgements count in a validator's favour.
pub open spec fn count_positive(s: Seq<Judgement>) -> int
    decreases s.len(),
{
    if s.len() == 0 {
        0
    } else {
        count_positive(s.drop_last()) + (match s.last() {
            Judgement::Reasonable => 1int,
            Judgement::KnownGood => 1int,
            _ => 0int,
        })
    }
}

/// Counts the `Reasonable` and `KnownGood` judgements.
pub fn count_positive_judgements(v: &Vec<Judgement>) -> (r: u32)
    requires
        v@.len() <= u32::MAX,
    ensures
        r == count_positive(v@),
{
    let mut count: u32 = 0;
    let mut i: usize = 0;
    while i < v.len()
        invariant
            0 <= i <= v@.len(),
            v@.len() <= u32::MAX,
            count == count_positive(v@.take(i as int)),
            count <= i,
        decreases v@.len() - i,
    {
        proof {
            assert(v@.take(i as int + 1).drop_last() =~= v@.take(i as int));
        }
        match v[i] {
            Judgement::Reasonable => {
                count = count + 1;
            },
            Judgement::KnownGood => {
                count = count + 1;
            },
            _ => {},
        }
        i += 1;
    }
    proof {
        assert(v@.take(v@.len() as int) =~= v@);
    }
    count
}

/// The resolved name: the account's own display, or `{parent}/{sub-name}`
/// one hop up, or empty.
pub open spec fn name_of(inp: IdentityInputV) -> Seq<char> {
    match inp.own {
        Some(reg) => identity_name(reg.display),
        None => match inp.parent {
            Some(p) => match p.registration {
                Some(preg) => identity_name(preg.display) + seq!['/'] + identity_name(
                    p.sub_name,
                ),
                None => Seq::empty(),
            },
            None => Seq::empty(),
        },
    }
}

/// The resolved judgement count.
pub open spec fn judgements_of(inp: IdentityInputV) -> int {
    match inp.own {
        Some(reg) => count_positive(reg.judgements),
        None => match inp.parent {
            Some(p) => match p.registration {
                Some(preg) => count_positive(preg.judgements),
                None => 0,
            },
            None => 0,
        },
    }
}

/// The resolved sub-account count.
pub open spec fn subs_of(inp: IdentityInputV) -> u32 {
    match inp.own {
        Some(reg) => reg.sub_accounts,
        None => match inp.parent {
            Some(p) => match p.registration {
                Some(preg) => preg.sub_accounts,
                None => 0u32,
            },
            None => 0u32,
        },
    }
}

/// Judgement lists short enough to count.
pub open spec fn judgements_ok(inp: IdentityInputV) -> bool {
    &&& (match inp.own {
        Some(reg) => reg.judgements.len() <= u32::MAX,
        None => true,
    })
    &&& (match inp.parent {
        Some(p) => match p.registration {
            Some(preg) => preg.judgements.len() <= u32::MAX,
            None => true,
        },
        None => true,
    })
}

/// The identity attributes written onto a validator record.
pub struct IdentityFields {
    pub name: String,
    pub judgements: u32,
    pub sub_accounts: u32,
}

/// Resolves an account's identity, following at most one hop to a parent.
pub fn get_identity(input: &IdentityInput) -> (r: IdentityFields)
    requires
        judgements_ok(input@),
    ensures
        r.name@ == name_of(input@),
        r.judgements == judgements_of(input@),
        r.sub_accounts == subs_of(input@),
{
    match &input.own {
        Some(reg) => {
            let name = parse_identity_data(reg.display.clone_data());
            let judgements = count_positive_judgements(&reg.judgements);
            IdentityFields { name, judgements, sub_accounts: reg.sub_accounts }
        },
        None => match &input.parent {
            Some(p) => match &p.registration {
                Some(preg) => {
                    proof {
                        reveal_strlit("/");
                        assert("/"@ =~= seq!['/']);
                    }
                    let mut name = parse_identity_data(preg.display.clone_data());
                    name.append("/");
                    let sub = parse_identity_data(p.sub_name.clone_data());
                    name.append(sub.as_str());
                    let judgements = count_positive_judgements(&preg.judgements);
                    proof {
                        assert(name@ =~= name_of(input@));
                    }
                    IdentityFields { name, judgements, sub_accounts: preg.sub_accounts }
                },
                None => IdentityFields {
                    name: String::new(),
                    judgements: 0,
                    sub_accounts: 0,
                },
            },
            None => IdentityFields { name: String::new(), judgements: 0, sub_accounts: 0 },
        },
    }
}

impl IdentityData {
    /// A copy of the field's bytes.
    pub fn clone_data(&self) -> (r: IdentityData)
        ensures
            r@ == self@,
    {
        match self {
            IdentityData::Raw(b) => IdentityData::Raw(b.clone()),
            IdentityData::BlakeTwo256(b) => IdentityData::BlakeTwo256(b.clone()),
            IdentityData::Sha256(b) => IdentityData::Sha256(b.clone()),
            IdentityData::Keccak256(b) => IdentityData::Keccak256(b.clone()),
            IdentityData::ShaThree256(b) => IdentityData::ShaThree256(b.clone()),
            IdentityData::Empty => IdentityData::Empty,
        }
    }
}

} // verus!
