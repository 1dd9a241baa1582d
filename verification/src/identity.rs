//! The local participant: a stable identifier and a display name that can be
//! changed.

use crate::error::{ChatError, ChatErrorView};
use crate::text::{trim, trimmed};
use crate::wire::{all_fit, append_block, blocks, fits, parse_blocks, read_blocks, remaining};
use vstd::prelude::*;

verus! {

/// The identity of the local participant.
#[derive(Debug, PartialEq, Eq)]
pub struct PeerIdentity {
    peer_id: String,
    display_name: String,
}

/// Mathematical value of a [`PeerIdentity`].
pub struct PeerIdentityView {
    pub peer_id: Seq<char>,
    pub display_name: Seq<char>,
}

impl View for PeerIdentity {
    type V = PeerIdentityView;

    closed spec fn view(&self) -> PeerIdentityView {
        PeerIdentityView { peer_id: self.peer_id@, display_name: self.display_name@ }
    }
}

/// The four bytes that open a persisted identity.
pub open spec fn identity_magic() -> Seq<u8> {
    seq![76u8, 67u8, 73u8, 68u8]
}

/// The persisted form of an identity: the opening bytes, then the identifier
/// and the display name as text blocks.
pub open spec fn identity_record(v: PeerIdentityView) -> Seq<u8> {
    identity_magic() + blocks(seq![v.peer_id, v.display_name])
}

/// An identity that can be persisted and loaded again: the identifier is not
/// empty and both texts fit a block.
pub open spec fn storable(v: PeerIdentityView) -> bool {
    v.peer_id.len() > 0 && fits(v.peer_id) && fits(v.display_name)
}

/// Reads a persisted identity. `None` for anything that is not the persisted
/// form of a storable identity.
pub open spec fn parse_identity(bytes: Seq<u8>) -> Option<PeerIdentityView> {
    if bytes.len() >= 4 && bytes.take(4) == identity_magic() {
        match parse_blocks(bytes.skip(4), 2) {
            Some(texts) => if texts[0].len() > 0 {
                Some(PeerIdentityView { peer_id: texts[0], display_name: texts[1] })
            } else {
                None
            },
            None => None,
        }
    } else {
        None
    }
}

/// What is loaded is what was persisted.
pub proof fn law_identity_roundtrip(v: PeerIdentityView)
    requires
        storable(v),
    ensures
        parse_identity(identity_record(v)) == Some(v),
{
    let texts = seq![v.peer_id, v.display_name];
    let bytes = identity_record(v);
    assert(all_fit(texts));
    crate::wire::lemma_blocks_roundtrip(texts);
    assert(bytes.take(4) =~= identity_magic());
    assert(bytes.skip(4) =~= blocks(texts));
}

/// Whatever loads as an identity is the persisted form of that identity, and
/// the identity is storable.
pub proof fn law_identity_canonical(bytes: Seq<u8>)
    requires
        parse_identity(bytes) is Some,
    ensures
        storable(parse_identity(bytes)->0),
        bytes == identity_record(parse_identity(bytes)->0),
{
    let v = parse_identity(bytes)->0;
    crate::wire::lemma_parse_blocks_canonical(bytes.skip(4), 2);
    let texts = parse_blocks(bytes.skip(4), 2)->0;
    assert(texts =~= seq![v.peer_id, v.display_name]);
    assert(fits(texts[0]) && fits(texts[1]));
    assert(bytes =~= bytes.take(4) + bytes.skip(4));
}

impl PeerIdentity {
    /// An identity with the identifier and display name given.
    pub fn new(peer_id: String, display_name: String) -> (r: Self)
        ensures
            r@.peer_id == peer_id@,
            r@.display_name == display_name@,
    {
        PeerIdentity { peer_id, display_name }
    }

    /// The stable identifier.
    pub fn peer_id(&self) -> (r: &String)
        ensures
            r@ == self@.peer_id,
    {
        &self.peer_id
    }

    /// The display name.
    pub fn peer_name(&self) -> (r: &str)
        ensures
            r@ == self@.display_name,
    {
        self.display_name.as_str()
    }

    /// Replaces the display name as it is given; the identifier stays.
    pub fn update_peer_name(&mut self, name: &str)
        ensures
            final(self)@.peer_id == old(self)@.peer_id,
            final(self)@.display_name == name@,
    {
        self.display_name = name.to_owned();
    }

    /// Renames the local participant to `new_name` without its leading and
    /// trailing whitespace. A name of which nothing is left is rejected with
    /// `EmptyName` and changes nothing. Otherwise the result says whether the
    /// name is another than before: only then is there anything to
    /// re-advertise.
    pub fn rename(&mut self, new_name: &str) -> (r: Result<bool, ChatError>)
        ensures
            final(self)@.peer_id == old(self)@.peer_id,
            match r {
                Err(e) => e@ == ChatErrorView::EmptyName && trimmed(new_name@).len() == 0
                    && final(self)@ == old(self)@,
                Ok(changed) => trimmed(new_name@).len() > 0 && final(self)@.display_name
                    == trimmed(new_name@) && changed == (trimmed(new_name@)
                    != old(self)@.display_name),
            },
    {
        let name = trim(new_name);
        if name.is_empty() {
            return Err(ChatError::EmptyName);
        }
        let name = name.to_owned();
        if name == self.display_name {
            return Ok(false);
        }
        self.display_name = name;
        Ok(true)
    }

    /// The persisted form of this identity. `None` if the identity is not
    /// storable.
    pub fn to_bytes(&self) -> (r: Option<Vec<u8>>)
        ensures
            r is Some <==> storable(self@),
            r matches Some(bytes) ==> bytes@ == identity_record(self@),
    {
        if self.peer_id.as_str().is_empty() {
            return None;
        }
        let mut out: Vec<u8> = Vec::new();
        out.push(76u8);
        out.push(67u8);
        out.push(73u8);
        out.push(68u8);
        assert(out@ =~= identity_magic());
        if !append_block(&mut out, self.peer_id.as_str()) {
            return None;
        }
        if !append_block(&mut out, self.display_name.as_str()) {
            return None;
        }
        proof {
            let texts = seq![self@.peer_id, self@.display_name];
            assert(texts.drop_first() =~= seq![self@.display_name]);
            assert(texts.drop_first().drop_first() =~= Seq::<Seq<char>>::empty());
            assert(blocks(texts.drop_first()) =~= crate::wire::block(self@.display_name)) by {
                assert(blocks(texts.drop_first().drop_first()) =~= Seq::<u8>::empty());
            }
            assert(out@ =~= identity_record(self@));
        }
        Some(out)
    }

    /// Loads a persisted identity. Fails with `InvalidIdentity` on anything
    /// that is not the persisted form of a storable identity.
    pub fn from_bytes(bytes: &[u8]) -> (r: Result<PeerIdentity, ChatError>)
        ensures
            match r {
                Ok(identity) => parse_identity(bytes@) == Some(identity@),
                Err(e) => parse_identity(bytes@) is None && e@ == ChatErrorView::InvalidIdentity,
            },
    {
        if bytes.len() < 4 || bytes[0] != 76u8 || bytes[1] != 67u8 || bytes[2] != 73u8 || bytes[3]
            != 68u8 {
            proof {
                if bytes.len() >= 4 {
                    let head = bytes@.take(4);
                    assert(head[0] == bytes@[0] && head[1] == bytes@[1] && head[2] == bytes@[2]
                        && head[3] == bytes@[3]);
                }
            }
            return Err(ChatError::InvalidIdentity);
        }
        assert(bytes@.take(4) =~= identity_magic());
        assert(remaining(bytes@, 4) == bytes@.skip(4));
        match read_blocks(bytes, 4, 2) {
            None => Err(ChatError::InvalidIdentity),
            Some(mut texts) => {
                proof {
                    crate::wire::lemma_parse_blocks_canonical(bytes@.skip(4), 2);
                }
                let ghost views = texts.deep_view();
                assert(views[0] == texts[0]@ && views[1] == texts[1]@);
                let display_name = texts.pop().unwrap();
                let peer_id = texts.pop().unwrap();
                if peer_id.as_str().is_empty() {
                    Err(ChatError::InvalidIdentity)
                } else {
                    Ok(PeerIdentity { peer_id, display_name })
                }
            },
        }
    }

    /// The identity to start with: the persisted one if there is one and it
    /// is valid, else a new one made of `fresh_id` and `fresh_name`. The flag
    /// says whether the identity is new and has to be persisted.
    pub fn load_or_generate(persisted: Option<&[u8]>, fresh_id: String, fresh_name: String) -> (r: (
        PeerIdentity,
        bool,
    ))
        ensures
            match persisted {
                Some(bytes) if parse_identity(bytes@) is Some => r.0@ == parse_identity(bytes@)->0
                    && !r.1,
                _ => r.0@.peer_id == fresh_id@ && r.0@.display_name == fresh_name@ && r.1,
            },
    {
        match persisted {
            Some(bytes) => match PeerIdentity::from_bytes(bytes) {
                Ok(identity) => (identity, false),
                Err(_) => (PeerIdentity::new(fresh_id, fresh_name), true),
            },
            None => (PeerIdentity::new(fresh_id, fresh_name), true),
        }
    }
}

} // verus!
