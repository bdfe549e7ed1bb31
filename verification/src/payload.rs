//! Server metadata carried in invites and device-provisioning payloads: member
//! and channel lists with their wire encodings.

use vstd::prelude::*;

use crate::codec::{
    be16, be32, be_i32, concat_map, enc_string, fits, lemma_arr32_eq, lemma_be_i32_of,
    lemma_be_i32_roundtrip, lemma_concat_map_push, lemma_concat_map_skip, lemma_read_string_window,
    lemma_rest_split, lemma_string_unique, put_bytes, put_i32, read_blob32, read_i32, read_string,
    read_u8, rest, string_fits, write_string,
};
use crate::error::{GhostError, format_err};
use crate::kinds::{ChannelKind, MemberRole, ServerKind, law_channel_kind_byte, law_member_role_byte};

verus! {

/// A member as listed in an invite.
pub struct InviteMember {
    pub fingerprint: [u8; 32],
    pub display_name: String,
    pub role: MemberRole,
}

/// The abstract value of an [`InviteMember`].
pub struct InviteMemberView {
    pub fingerprint: [u8; 32],
    pub display_name: Seq<char>,
    pub role: MemberRole,
}

impl View for InviteMember {
    type V = InviteMemberView;

    open spec fn view(&self) -> InviteMemberView {
        InviteMemberView { fingerprint: self.fingerprint, display_name: self.display_name@, role: self.role }
    }
}

/// A channel as listed in an invite.
pub struct InviteChannel {
    pub channel_id: [u8; 32],
    pub name: String,
    pub kind: ChannelKind,
    pub position: i32,
}

/// The abstract value of an [`InviteChannel`].
pub struct InviteChannelView {
    pub channel_id: [u8; 32],
    pub name: Seq<char>,
    pub kind: ChannelKind,
    pub position: i32,
}

impl View for InviteChannel {
    type V = InviteChannelView;

    open spec fn view(&self) -> InviteChannelView {
        InviteChannelView { channel_id: self.channel_id, name: self.name@, kind: self.kind, position: self.position }
    }
}

/// Wire bytes of a member: fingerprint, length-prefixed name, role byte.
pub open spec fn enc_member(m: InviteMemberView) -> Seq<u8> {
    m.fingerprint@ + enc_string(m.display_name) + seq![m.role.byte()]
}

/// Wire bytes of a channel: id, length-prefixed name, kind byte, big-endian position.
pub open spec fn enc_channel(c: InviteChannelView) -> Seq<u8> {
    c.channel_id@ + enc_string(c.name) + seq![c.kind.byte()] + be_i32(c.position)
}

/// A member whose name fits its length prefix.
pub open spec fn member_fits(m: InviteMemberView) -> bool {
    string_fits(m.display_name)
}

/// A channel whose name fits its length prefix.
pub open spec fn channel_fits(c: InviteChannelView) -> bool {
    string_fits(c.name)
}

/// The abstract values of a list of members.
pub open spec fn members_view(v: Seq<InviteMember>) -> Seq<InviteMemberView> {
    v.map_values(|m: InviteMember| m@)
}

/// The abstract values of a list of channels.
pub open spec fn channels_view(v: Seq<InviteChannel>) -> Seq<InviteChannelView> {
    v.map_values(|c: InviteChannel| c@)
}

/// Wire bytes of a list of members (without its count).
pub open spec fn enc_members(s: Seq<InviteMemberView>) -> Seq<u8> {
    concat_map(s, |m: InviteMemberView| enc_member(m))
}

/// Wire bytes of a list of channels (without its count).
pub open spec fn enc_channels(s: Seq<InviteChannelView>) -> Seq<u8> {
    concat_map(s, |c: InviteChannelView| enc_channel(c))
}

/// Every member of the list fits.
pub open spec fn all_members_fit(s: Seq<InviteMemberView>) -> bool {
    forall|i: int| 0 <= i < s.len() ==> member_fits(#[trigger] s[i])
}

/// Every channel of the list fits.
pub open spec fn all_channels_fit(s: Seq<InviteChannelView>) -> bool {
    forall|i: int| 0 <= i < s.len() ==> channel_fits(#[trigger] s[i])
}

/// A member is determined by its encoding, whatever follows.
pub proof fn lemma_member_unique(a: InviteMemberView, b: InviteMemberView, t1: Seq<u8>, t2: Seq<u8>)
    requires
        member_fits(a),
        member_fits(b),
        enc_member(a) + t1 == enc_member(b) + t2,
    ensures
        a == b,
        t1 == t2,
{
    let x = enc_member(a) + t1;
    assert(x.subrange(0, 32) =~= a.fingerprint@);
    assert((enc_member(b) + t2).subrange(0, 32) =~= b.fingerprint@);
    lemma_arr32_eq(a.fingerprint, b.fingerprint);
    let ra = enc_string(a.display_name) + (seq![a.role.byte()] + t1);
    let rb = enc_string(b.display_name) + (seq![b.role.byte()] + t2);
    assert(x.subrange(32, x.len() as int) =~= ra);
    assert((enc_member(b) + t2).subrange(32, x.len() as int) =~= rb);
    lemma_string_unique(a.display_name, b.display_name, seq![a.role.byte()] + t1, seq![b.role.byte()] + t2);
    assert((seq![a.role.byte()] + t1)[0] == a.role.byte());
    assert((seq![b.role.byte()] + t2)[0] == b.role.byte());
    law_member_role_byte(a.role, b.role.byte());
    assert(t1 =~= (seq![a.role.byte()] + t1).drop_first());
    assert(t2 =~= (seq![b.role.byte()] + t2).drop_first());
}

/// A channel is determined by its encoding, whatever follows.
pub proof fn lemma_channel_unique(a: InviteChannelView, b: InviteChannelView, t1: Seq<u8>, t2: Seq<u8>)
    requires
        channel_fits(a),
        channel_fits(b),
        enc_channel(a) + t1 == enc_channel(b) + t2,
    ensures
        a == b,
        t1 == t2,
{
    let x = enc_channel(a) + t1;
    assert(x.subrange(0, 32) =~= a.channel_id@);
    assert((enc_channel(b) + t2).subrange(0, 32) =~= b.channel_id@);
    lemma_arr32_eq(a.channel_id, b.channel_id);
    let ta = seq![a.kind.byte()] + be_i32(a.position) + t1;
    let tb = seq![b.kind.byte()] + be_i32(b.position) + t2;
    assert(x.subrange(32, x.len() as int) =~= enc_string(a.name) + ta);
    assert((enc_channel(b) + t2).subrange(32, x.len() as int) =~= enc_string(b.name) + tb);
    lemma_string_unique(a.name, b.name, ta, tb);
    assert(ta[0] == a.kind.byte());
    assert(tb[0] == b.kind.byte());
    law_channel_kind_byte(a.kind, b.kind.byte());
    lemma_be_i32_roundtrip(a.position);
    lemma_be_i32_roundtrip(b.position);
    assert(ta.subrange(1, 5) =~= be_i32(a.position));
    assert(tb.subrange(1, 5) =~= be_i32(b.position));
    assert(t1 =~= ta.subrange(5, ta.len() as int));
    assert(t2 =~= tb.subrange(5, tb.len() as int));
}

/// A list of members of known length is determined by its encoding, whatever follows.
pub proof fn lemma_members_unique(a: Seq<InviteMemberView>, b: Seq<InviteMemberView>, t1: Seq<u8>, t2: Seq<u8>)
    requires
        a.len() == b.len(),
        all_members_fit(a),
        all_members_fit(b),
        enc_members(a) + t1 == enc_members(b) + t2,
    ensures
        a == b,
        t1 == t2,
    decreases a.len(),
{
    if a.len() == 0 {
        assert(a =~= b);
        assert(enc_members(a) + t1 =~= t1);
        assert(enc_members(b) + t2 =~= t2);
    } else {
        let ra = enc_members(a.drop_first()) + t1;
        let rb = enc_members(b.drop_first()) + t2;
        assert(enc_members(a) + t1 =~= enc_member(a[0]) + ra);
        assert(enc_members(b) + t2 =~= enc_member(b[0]) + rb);
        assert(member_fits(a[0]) && member_fits(b[0]));
        lemma_member_unique(a[0], b[0], ra, rb);
        lemma_members_unique(a.drop_first(), b.drop_first(), t1, t2);
        assert forall|i: int| 0 <= i < a.len() implies a[i] == b[i] by {
            if i > 0 {
                assert(a[i] == a.drop_first()[i - 1]);
                assert(b[i] == b.drop_first()[i - 1]);
            }
        }
        assert(a =~= b);
    }
}

/// A list of channels of known length is determined by its encoding, whatever follows.
pub proof fn lemma_channels_unique(a: Seq<InviteChannelView>, b: Seq<InviteChannelView>, t1: Seq<u8>, t2: Seq<u8>)
    requires
        a.len() == b.len(),
        all_channels_fit(a),
        all_channels_fit(b),
        enc_channels(a) + t1 == enc_channels(b) + t2,
    ensures
        a == b,
        t1 == t2,
    decreases a.len(),
{
    if a.len() == 0 {
        assert(a =~= b);
        assert(enc_channels(a) + t1 =~= t1);
        assert(enc_channels(b) + t2 =~= t2);
    } else {
        let ra = enc_channels(a.drop_first()) + t1;
        let rb = enc_channels(b.drop_first()) + t2;
        assert(enc_channels(a) + t1 =~= enc_channel(a[0]) + ra);
        assert(enc_channels(b) + t2 =~= enc_channel(b[0]) + rb);
        assert(channel_fits(a[0]) && channel_fits(b[0]));
        lemma_channel_unique(a[0], b[0], ra, rb);
        lemma_channels_unique(a.drop_first(), b.drop_first(), t1, t2);
        assert forall|i: int| 0 <= i < a.len() implies a[i] == b[i] by {
            if i > 0 {
                assert(a[i] == a.drop_first()[i - 1]);
                assert(b[i] == b.drop_first()[i - 1]);
            }
        }
        assert(a =~= b);
    }
}

/// Appends the encoding of a member.
pub fn write_member(buf: &mut Vec<u8>, m: &InviteMember)
    ensures
        final(buf)@ == old(buf)@ + enc_member(m@),
{
    put_bytes(buf, &m.fingerprint);
    write_string(buf, m.display_name.as_str());
    buf.push(m.role.to_byte());
    assert(final(buf)@ =~= old(buf)@ + enc_member(m@));
}

/// Appends the encoding of a channel.
pub fn write_channel(buf: &mut Vec<u8>, c: &InviteChannel)
    ensures
        final(buf)@ == old(buf)@ + enc_channel(c@),
{
    put_bytes(buf, &c.channel_id);
    write_string(buf, c.name.as_str());
    buf.push(c.kind.to_byte());
    put_i32(buf, c.position);
    assert(final(buf)@ =~= old(buf)@ + enc_channel(c@));
}

/// Appends the encodings of all members, in order.
pub fn write_members(buf: &mut Vec<u8>, ms: &Vec<InviteMember>)
    ensures
        final(buf)@ == old(buf)@ + enc_members(members_view(ms@)),
{
    let ghost start = buf@;
    let mut i: usize = 0;
    while i < ms.len()
        invariant
            0 <= i <= ms@.len(),
            buf@ == start + enc_members(members_view(ms@.take(i as int))),
        decreases ms@.len() - i,
    {
        write_member(buf, &ms[i]);
        proof {
            lemma_concat_map_push(members_view(ms@.take(i as int)), ms@[i as int]@, |m: InviteMemberView| enc_member(m));
            assert(members_view(ms@.take(i + 1)) =~= members_view(ms@.take(i as int)).push(ms@[i as int]@));
        }
        i = i + 1;
    }
    assert(ms@.take(ms@.len() as int) =~= ms@);
}

/// Appends the encodings of all channels, in order.
pub fn write_channels(buf: &mut Vec<u8>, cs: &Vec<InviteChannel>)
    ensures
        final(buf)@ == old(buf)@ + enc_channels(channels_view(cs@)),
{
    let ghost start = buf@;
    let mut i: usize = 0;
    while i < cs.len()
        invariant
            0 <= i <= cs@.len(),
            buf@ == start + enc_channels(channels_view(cs@.take(i as int))),
        decreases cs@.len() - i,
    {
        write_channel(buf, &cs[i]);
        proof {
            lemma_concat_map_push(channels_view(cs@.take(i as int)), cs@[i as int]@, |c: InviteChannelView| enc_channel(c));
            assert(channels_view(cs@.take(i + 1)) =~= channels_view(cs@.take(i as int)).push(cs@[i as int]@));
        }
        i = i + 1;
    }
    assert(cs@.take(cs@.len() as int) =~= cs@);
}

/// Reads one member at `*pos`.
pub fn read_member(data: &[u8], pos: &mut usize) -> (r: Result<InviteMember, GhostError>)
    requires
        *old(pos) <= data@.len(),
    ensures
        match r {
            Ok(m) => {
                &&& *old(pos) <= *final(pos) <= data@.len()
                &&& data@.subrange(*old(pos) as int, *final(pos) as int) == enc_member(m@)
                &&& member_fits(m@)
            },
            Err(e) => e is Format && !exists|mv: InviteMemberView, t: Seq<u8>|
                member_fits(mv) && rest(data@, *old(pos) as int) == enc_member(mv) + t,
        },
{
    let ghost p0 = *pos as int;
    let ghost has = exists|mv: InviteMemberView, t: Seq<u8>| member_fits(mv) && rest(data@, p0) == enc_member(mv) + t;
    let ghost (wm, wt) = choose|mv: InviteMemberView, t: Seq<u8>| member_fits(mv) && rest(data@, p0) == enc_member(mv) + t;
    proof {
        if has {
            assert(rest(data@, p0) =~= wm.fingerprint@ + (enc_string(wm.display_name) + (seq![wm.role.byte()] + wt)));
            crate::codec::lemma_take(data@, p0, wm.fingerprint@, enc_string(wm.display_name) + (seq![wm.role.byte()] + wt));
        }
    }
    let fingerprint = match read_blob32(data, pos) {
        Ok(v) => v,
        Err(e) => return Err(e),
    };
    let ghost p1 = *pos as int;
    proof {
        if has {
            lemma_arr32_eq(fingerprint, wm.fingerprint);
            crate::codec::lemma_string_at(data@, p1, wm.display_name, seq![wm.role.byte()] + wt);
        }
    }
    let display_name = match read_string(data, pos) {
        Ok(s) => s,
        Err(e) => return Err(e),
    };
    let ghost p2 = *pos as int;
    proof {
        lemma_read_string_window(data@, p1, p2 - p1 - 2, display_name@);
        if has {
            crate::codec::lemma_utf8_injective(display_name@, wm.display_name);
            crate::codec::lemma_take(data@, p2, seq![wm.role.byte()], wt);
            assert(data@.subrange(p2, p2 + 1)[0] == data@[p2]);
            assert(data@[p2] == wm.role.byte());
        }
    }
    let role_byte = match read_u8(data, pos) {
        Ok(b) => b,
        Err(e) => return Err(e),
    };
    let role = match MemberRole::from_byte(role_byte) {
        Ok(r) => r,
        Err(e) => {
            proof {
                if has {
                    law_member_role_byte(wm.role, role_byte);
                }
            }
            return Err(e);
        },
    };
    let m = InviteMember { fingerprint, display_name, role };
    proof {
        law_member_role_byte(role, role_byte);
        assert(data@.subrange(p0, *pos as int) =~= data@.subrange(p0, p1) + data@.subrange(p1, p2)
            + data@.subrange(p2, *pos as int));
        assert(data@.subrange(p0, *pos as int) =~= enc_member(m@));
    }
    Ok(m)
}

/// Reads one channel at `*pos`.
pub fn read_channel(data: &[u8], pos: &mut usize) -> (r: Result<InviteChannel, GhostError>)
    requires
        *old(pos) <= data@.len(),
    ensures
        match r {
            Ok(c) => {
                &&& *old(pos) <= *final(pos) <= data@.len()
                &&& data@.subrange(*old(pos) as int, *final(pos) as int) == enc_channel(c@)
                &&& channel_fits(c@)
            },
            Err(e) => e is Format && !exists|cv: InviteChannelView, t: Seq<u8>|
                channel_fits(cv) && rest(data@, *old(pos) as int) == enc_channel(cv) + t,
        },
{
    let ghost p0 = *pos as int;
    let ghost has = exists|cv: InviteChannelView, t: Seq<u8>| channel_fits(cv) && rest(data@, p0) == enc_channel(cv) + t;
    let ghost (wc, wt) = choose|cv: InviteChannelView, t: Seq<u8>| channel_fits(cv) && rest(data@, p0) == enc_channel(cv) + t;
    proof {
        if has {
            assert(rest(data@, p0) =~= wc.channel_id@ + (enc_string(wc.name) + (seq![wc.kind.byte()] + (be_i32(wc.position) + wt))));
            crate::codec::lemma_take(data@, p0, wc.channel_id@, enc_string(wc.name) + (seq![wc.kind.byte()] + (be_i32(wc.position) + wt)));
        }
    }
    let channel_id = match read_blob32(data, pos) {
        Ok(v) => v,
        Err(e) => return Err(e),
    };
    let ghost p1 = *pos as int;
    proof {
        if has {
            lemma_arr32_eq(channel_id, wc.channel_id);
            crate::codec::lemma_string_at(data@, p1, wc.name, seq![wc.kind.byte()] + (be_i32(wc.position) + wt));
        }
    }
    let name = match read_string(data, pos) {
        Ok(s) => s,
        Err(e) => return Err(e),
    };
    let ghost p2 = *pos as int;
    proof {
        lemma_read_string_window(data@, p1, p2 - p1 - 2, name@);
        if has {
            crate::codec::lemma_utf8_injective(name@, wc.name);
            crate::codec::lemma_take(data@, p2, seq![wc.kind.byte()], be_i32(wc.position) + wt);
            assert(data@.subrange(p2, p2 + 1)[0] == data@[p2]);
            assert(data@[p2] == wc.kind.byte());
        }
    }
    let kind_byte = match read_u8(data, pos) {
        Ok(b) => b,
        Err(e) => return Err(e),
    };
    let kind = match ChannelKind::from_byte(kind_byte) {
        Ok(k) => k,
        Err(e) => {
            proof {
                if has {
                    law_channel_kind_byte(wc.kind, kind_byte);
                }
            }
            return Err(e);
        },
    };
    let ghost p3 = *pos as int;
    proof {
        if has {
            crate::codec::lemma_take(data@, p3, be_i32(wc.position), wt);
            lemma_be_i32_roundtrip(wc.position);
        }
    }
    let position = match read_i32(data, pos) {
        Ok(v) => v,
        Err(e) => return Err(e),
    };
    let c = InviteChannel { channel_id, name, kind, position };
    proof {
        law_channel_kind_byte(kind, kind_byte);
        lemma_be_i32_of(data@.subrange(p3, *pos as int));
        assert(data@.subrange(p0, *pos as int) =~= data@.subrange(p0, p1) + data@.subrange(p1, p2)
            + data@.subrange(p2, p3) + data@.subrange(p3, *pos as int));
        assert(data@.subrange(p0, *pos as int) =~= enc_channel(c@));
    }
    Ok(c)
}

} // verus!

verus! {

/// Reads `count` members at `*pos`.
pub fn read_members(data: &[u8], pos: &mut usize, count: usize) -> (r: Result<Vec<InviteMember>, GhostError>)
    requires
        *old(pos) <= data@.len(),
    ensures
        match r {
            Ok(v) => {
                &&& v@.len() == count
                &&& *old(pos) <= *final(pos) <= data@.len()
                &&& data@.subrange(*old(pos) as int, *final(pos) as int) == enc_members(members_view(v@))
                &&& all_members_fit(members_view(v@))
            },
            Err(e) => e is Format && !exists|s: Seq<InviteMemberView>, t: Seq<u8>|
                s.len() == count && all_members_fit(s) && rest(data@, *old(pos) as int) == enc_members(s) + t,
        },
{
    let ghost p0 = *pos as int;
    let ghost has = exists|s: Seq<InviteMemberView>, t: Seq<u8>|
        s.len() == count && all_members_fit(s) && rest(data@, p0) == enc_members(s) + t;
    let ghost (ws, wt) = choose|s: Seq<InviteMemberView>, t: Seq<u8>|
        s.len() == count && all_members_fit(s) && rest(data@, p0) == enc_members(s) + t;
    proof {
        if has {
            assert(ws.skip(0) =~= ws);
        }
        assert(data@.subrange(p0, p0) =~= Seq::<u8>::empty());
        assert(members_view(Seq::<InviteMember>::empty()) =~= Seq::<InviteMemberView>::empty());
    }
    let mut v: Vec<InviteMember> = Vec::new();
    let mut i: usize = 0;
    while i < count
        invariant
            0 <= i <= count,
            0 <= p0,
            p0 == *old(pos),
            v@.len() == i,
            p0 <= *pos <= data@.len(),
            data@.subrange(p0, *pos as int) == enc_members(members_view(v@)),
            all_members_fit(members_view(v@)),
            has == exists|s: Seq<InviteMemberView>, t: Seq<u8>|
                s.len() == count && all_members_fit(s) && rest(data@, p0) == enc_members(s) + t,
            has ==> {
                &&& ws.len() == count
                &&& all_members_fit(ws)
                &&& members_view(v@) == ws.take(i as int)
                &&& rest(data@, *pos as int) == enc_members(ws.skip(i as int)) + wt
            },
        decreases count - i,
    {
        let ghost before = *pos as int;
        proof {
            if has {
                lemma_concat_map_skip(ws, i as int, |m: InviteMemberView| enc_member(m));
                assert(rest(data@, before) =~= enc_member(ws[i as int]) + (enc_members(ws.skip(i + 1)) + wt));
                assert(member_fits(ws[i as int]));
            }
        }
        let m = match read_member(data, pos) {
            Ok(m) => m,
            Err(e) => {
                proof {
                    if has {
                        let tail = enc_members(ws.skip(i + 1)) + wt;
                        assert(rest(data@, before) == enc_member(ws[i as int]) + tail);
                    }
                }
                return Err(e);
            },
        };
        proof {
            lemma_rest_split(data@, before, *pos as int);
            crate::codec::lemma_join(data@, p0, before, *pos as int);
            lemma_concat_map_push(members_view(v@), m@, |m: InviteMemberView| enc_member(m));
            assert(members_view(v@.push(m)) =~= members_view(v@).push(m@));
            if has {
                lemma_member_unique(m@, ws[i as int], rest(data@, *pos as int), enc_members(ws.skip(i + 1)) + wt);
                assert(ws.take(i + 1) =~= ws.take(i as int).push(ws[i as int]));
            }
        }
        v.push(m);
        i = i + 1;
    }
    Ok(v)
}

/// Reads `count` channels at `*pos`.
pub fn read_channels(data: &[u8], pos: &mut usize, count: usize) -> (r: Result<Vec<InviteChannel>, GhostError>)
    requires
        *old(pos) <= data@.len(),
    ensures
        match r {
            Ok(v) => {
                &&& v@.len() == count
                &&& *old(pos) <= *final(pos) <= data@.len()
                &&& data@.subrange(*old(pos) as int, *final(pos) as int) == enc_channels(channels_view(v@))
                &&& all_channels_fit(channels_view(v@))
            },
            Err(e) => e is Format && !exists|s: Seq<InviteChannelView>, t: Seq<u8>|
                s.len() == count && all_channels_fit(s) && rest(data@, *old(pos) as int) == enc_channels(s) + t,
        },
{
    let ghost p0 = *pos as int;
    let ghost has = exists|s: Seq<InviteChannelView>, t: Seq<u8>|
        s.len() == count && all_channels_fit(s) && rest(data@, p0) == enc_channels(s) + t;
    let ghost (ws, wt) = choose|s: Seq<InviteChannelView>, t: Seq<u8>|
        s.len() == count && all_channels_fit(s) && rest(data@, p0) == enc_channels(s) + t;
    proof {
        if has {
            assert(ws.skip(0) =~= ws);
        }
        assert(data@.subrange(p0, p0) =~= Seq::<u8>::empty());
        assert(channels_view(Seq::<InviteChannel>::empty()) =~= Seq::<InviteChannelView>::empty());
    }
    let mut v: Vec<InviteChannel> = Vec::new();
    let mut i: usize = 0;
    while i < count
        invariant
            0 <= i <= count,
            0 <= p0,
            p0 == *old(pos),
            v@.len() == i,
            p0 <= *pos <= data@.len(),
            data@.subrange(p0, *pos as int) == enc_channels(channels_view(v@)),
            all_channels_fit(channels_view(v@)),
            has == exists|s: Seq<InviteChannelView>, t: Seq<u8>|
                s.len() == count && all_channels_fit(s) && rest(data@, p0) == enc_channels(s) + t,
            has ==> {
                &&& ws.len() == count
                &&& all_channels_fit(ws)
                &&& channels_view(v@) == ws.take(i as int)
                &&& rest(data@, *pos as int) == enc_channels(ws.skip(i as int)) + wt
            },
        decreases count - i,
    {
        let ghost before = *pos as int;
        proof {
            if has {
                lemma_concat_map_skip(ws, i as int, |c: InviteChannelView| enc_channel(c));
                assert(rest(data@, before) =~= enc_channel(ws[i as int]) + (enc_channels(ws.skip(i + 1)) + wt));
                assert(channel_fits(ws[i as int]));
            }
        }
        let c = match read_channel(data, pos) {
            Ok(c) => c,
            Err(e) => {
                proof {
                    if has {
                        let tail = enc_channels(ws.skip(i + 1)) + wt;
                        assert(rest(data@, before) == enc_channel(ws[i as int]) + tail);
                    }
                }
                return Err(e);
            },
        };
        proof {
            lemma_rest_split(data@, before, *pos as int);
            crate::codec::lemma_join(data@, p0, before, *pos as int);
            lemma_concat_map_push(channels_view(v@), c@, |c: InviteChannelView| enc_channel(c));
            assert(channels_view(v@.push(c)) =~= channels_view(v@).push(c@));
            if has {
                lemma_channel_unique(c@, ws[i as int], rest(data@, *pos as int), enc_channels(ws.skip(i + 1)) + wt);
                assert(ws.take(i + 1) =~= ws.take(i as int).push(ws[i as int]));
            }
        }
        v.push(c);
        i = i + 1;
    }
    Ok(v)
}

} // verus!

verus! {

/// Server metadata and MLS GroupInfo handed to someone joining by invite.
pub struct InvitePayload {
    pub server_id: [u8; 32],
    pub server_name: String,
    pub kind: ServerKind,
    pub members: Vec<InviteMember>,
    pub channels: Vec<InviteChannel>,
    pub group_info_bytes: Vec<u8>,
}

/// The abstract value of an [`InvitePayload`].
pub struct InvitePayloadView {
    pub server_id: [u8; 32],
    pub server_name: Seq<char>,
    pub kind: ServerKind,
    pub members: Seq<InviteMemberView>,
    pub channels: Seq<InviteChannelView>,
    pub group_info: Seq<u8>,
}

impl View for InvitePayload {
    type V = InvitePayloadView;

    open spec fn view(&self) -> InvitePayloadView {
        InvitePayloadView {
            server_id: self.server_id,
            server_name: self.server_name@,
            kind: self.kind,
            members: members_view(self.members@),
            channels: channels_view(self.channels@),
            group_info: self.group_info_bytes@,
        }
    }
}

/// An invite that can be written and read back: every string and list fits its
/// length prefix.
pub open spec fn invite_wf(v: InvitePayloadView) -> bool {
    &&& string_fits(v.server_name)
    &&& v.members.len() <= 0xffff
    &&& all_members_fit(v.members)
    &&& v.channels.len() <= 0xffff
    &&& all_channels_fit(v.channels)
    &&& v.group_info.len() <= u32::MAX
}

/// Wire bytes of an invite: server id, name, kind byte, counted member list,
/// counted channel list, then the length-prefixed GroupInfo.
pub open spec fn enc_invite(v: InvitePayloadView) -> Seq<u8> {
    v.server_id@ + (enc_string(v.server_name) + (seq![v.kind.byte()] + (be16(v.members.len() as u16)
        + (enc_members(v.members) + (be16(v.channels.len() as u16) + (enc_channels(v.channels)
        + (be32(v.group_info.len() as u32) + v.group_info)))))))
}

/// Server metadata sent to a newly linked device of the same account.
pub struct ProvisionPayload {
    pub server_id: [u8; 32],
    pub server_name: String,
    pub kind: ServerKind,
    pub members: Vec<InviteMember>,
    pub channels: Vec<InviteChannel>,
    pub mailbox_id: [u8; 32],
}

/// The abstract value of a [`ProvisionPayload`].
pub struct ProvisionPayloadView {
    pub server_id: [u8; 32],
    pub server_name: Seq<char>,
    pub kind: ServerKind,
    pub members: Seq<InviteMemberView>,
    pub channels: Seq<InviteChannelView>,
    pub mailbox_id: [u8; 32],
}

impl View for ProvisionPayload {
    type V = ProvisionPayloadView;

    open spec fn view(&self) -> ProvisionPayloadView {
        ProvisionPayloadView {
            server_id: self.server_id,
            server_name: self.server_name@,
            kind: self.kind,
            members: members_view(self.members@),
            channels: channels_view(self.channels@),
            mailbox_id: self.mailbox_id,
        }
    }
}

/// A provision payload that can be written and read back.
pub open spec fn provision_wf(v: ProvisionPayloadView) -> bool {
    &&& string_fits(v.server_name)
    &&& v.members.len() <= 0xffff
    &&& all_members_fit(v.members)
    &&& v.channels.len() <= 0xffff
    &&& all_channels_fit(v.channels)
}

/// Wire bytes of a provision payload: as an invite, but ending with the mailbox id.
pub open spec fn enc_provision(v: ProvisionPayloadView) -> Seq<u8> {
    v.server_id@ + (enc_string(v.server_name) + (seq![v.kind.byte()] + (be16(v.members.len() as u16)
        + (enc_members(v.members) + (be16(v.channels.len() as u16) + (enc_channels(v.channels)
        + v.mailbox_id@))))))
}

/// The common head of both payloads: server id, name and kind.
struct Head {
    server_id: [u8; 32],
    server_name: String,
    kind: ServerKind,
}

/// Reads the server id, name and kind at `*pos`.
fn read_head(data: &[u8], pos: &mut usize) -> (r: Result<Head, GhostError>)
    requires
        *old(pos) <= data@.len(),
    ensures
        match r {
            Ok(h) => {
                &&& *old(pos) <= *final(pos) <= data@.len()
                &&& string_fits(h.server_name@)
                &&& rest(data@, *old(pos) as int) == h.server_id@ + (enc_string(h.server_name@)
                    + (seq![h.kind.byte()] + rest(data@, *final(pos) as int)))
            },
            Err(e) => e is Format && !exists|id: [u8; 32], name: Seq<char>, k: ServerKind, t: Seq<u8>|
                string_fits(name) && rest(data@, *old(pos) as int) == id@ + (enc_string(name) + (seq![k.byte()] + t)),
        },
{
    let ghost p0 = *pos as int;
    let ghost has = exists|id: [u8; 32], name: Seq<char>, k: ServerKind, t: Seq<u8>|
        string_fits(name) && rest(data@, p0) == id@ + (enc_string(name) + (seq![k.byte()] + t));
    let ghost (wid, wname, wk, wt) = choose|id: [u8; 32], name: Seq<char>, k: ServerKind, t: Seq<u8>|
        string_fits(name) && rest(data@, p0) == id@ + (enc_string(name) + (seq![k.byte()] + t));
    proof {
        if has {
            crate::codec::lemma_take(data@, p0, wid@, enc_string(wname) + (seq![wk.byte()] + wt));
        }
    }
    let server_id = match read_blob32(data, pos) {
        Ok(v) => v,
        Err(e) => return Err(e),
    };
    let ghost p1 = *pos as int;
    proof {
        lemma_rest_split(data@, p0, p1);
        if has {
            crate::codec::lemma_string_at(data@, p1, wname, seq![wk.byte()] + wt);
        }
    }
    let server_name = match read_string(data, pos) {
        Ok(s) => s,
        Err(e) => return Err(e),
    };
    let ghost p2 = *pos as int;
    proof {
        lemma_read_string_window(data@, p1, p2 - p1 - 2, server_name@);
        lemma_rest_split(data@, p1, p2);
        if has {
            crate::codec::lemma_utf8_injective(server_name@, wname);
            crate::codec::lemma_take(data@, p2, seq![wk.byte()], wt);
            assert(data@.subrange(p2, p2 + 1)[0] == data@[p2]);
        }
    }
    let kind_byte = match read_u8(data, pos) {
        Ok(b) => b,
        Err(e) => return Err(e),
    };
    let kind = match ServerKind::from_byte(kind_byte) {
        Ok(k) => k,
        Err(e) => {
            proof {
                if has {
                    crate::kinds::law_server_kind_byte(wk, kind_byte);
                }
            }
            return Err(e);
        },
    };
    proof {
        crate::kinds::law_server_kind_byte(kind, kind_byte);
        lemma_rest_split(data@, p2, *pos as int);
        assert(data@.subrange(p2, *pos as int) =~= seq![kind.byte()]);
    }
    Ok(Head { server_id, server_name, kind })
}

/// Reads a big-endian count and then that many members at `*pos`.
fn read_counted_members(data: &[u8], pos: &mut usize) -> (r: Result<Vec<InviteMember>, GhostError>)
    requires
        *old(pos) <= data@.len(),
    ensures
        match r {
            Ok(v) => {
                &&& *old(pos) <= *final(pos) <= data@.len()
                &&& v@.len() <= 0xffff
                &&& all_members_fit(members_view(v@))
                &&& rest(data@, *old(pos) as int) == be16(v@.len() as u16) + (enc_members(members_view(v@))
                    + rest(data@, *final(pos) as int))
            },
            Err(e) => e is Format && !exists|s: Seq<InviteMemberView>, t: Seq<u8>|
                s.len() <= 0xffff && all_members_fit(s)
                && rest(data@, *old(pos) as int) == be16(s.len() as u16) + (enc_members(s) + t),
        },
{
    let ghost p0 = *pos as int;
    let ghost has = exists|s: Seq<InviteMemberView>, t: Seq<u8>|
        s.len() <= 0xffff && all_members_fit(s) && rest(data@, p0) == be16(s.len() as u16) + (enc_members(s) + t);
    let ghost (ws, wt) = choose|s: Seq<InviteMemberView>, t: Seq<u8>|
        s.len() <= 0xffff && all_members_fit(s) && rest(data@, p0) == be16(s.len() as u16) + (enc_members(s) + t);
    proof {
        if has {
            crate::codec::lemma_take(data@, p0, be16(ws.len() as u16), enc_members(ws) + wt);
            crate::codec::lemma_be16_roundtrip(ws.len() as u16);
        }
    }
    let count = match crate::codec::read_u16(data, pos) {
        Ok(c) => c as usize,
        Err(e) => return Err(e),
    };
    let ghost p1 = *pos as int;
    proof {
        lemma_rest_split(data@, p0, p1);
        crate::codec::lemma_be16_of(data@.subrange(p0, p1));
    }
    let v = match read_members(data, pos, count) {
        Ok(v) => v,
        Err(e) => return Err(e),
    };
    proof {
        lemma_rest_split(data@, p1, *pos as int);
    }
    Ok(v)
}

/// Reads a big-endian count and then that many channels at `*pos`.
fn read_counted_channels(data: &[u8], pos: &mut usize) -> (r: Result<Vec<InviteChannel>, GhostError>)
    requires
        *old(pos) <= data@.len(),
    ensures
        match r {
            Ok(v) => {
                &&& *old(pos) <= *final(pos) <= data@.len()
                &&& v@.len() <= 0xffff
                &&& all_channels_fit(channels_view(v@))
                &&& rest(data@, *old(pos) as int) == be16(v@.len() as u16) + (enc_channels(channels_view(v@))
                    + rest(data@, *final(pos) as int))
            },
            Err(e) => e is Format && !exists|s: Seq<InviteChannelView>, t: Seq<u8>|
                s.len() <= 0xffff && all_channels_fit(s)
                && rest(data@, *old(pos) as int) == be16(s.len() as u16) + (enc_channels(s) + t),
        },
{
    let ghost p0 = *pos as int;
    let ghost has = exists|s: Seq<InviteChannelView>, t: Seq<u8>|
        s.len() <= 0xffff && all_channels_fit(s) && rest(data@, p0) == be16(s.len() as u16) + (enc_channels(s) + t);
    let ghost (ws, wt) = choose|s: Seq<InviteChannelView>, t: Seq<u8>|
        s.len() <= 0xffff && all_channels_fit(s) && rest(data@, p0) == be16(s.len() as u16) + (enc_channels(s) + t);
    proof {
        if has {
            crate::codec::lemma_take(data@, p0, be16(ws.len() as u16), enc_channels(ws) + wt);
            crate::codec::lemma_be16_roundtrip(ws.len() as u16);
        }
    }
    let count = match crate::codec::read_u16(data, pos) {
        Ok(c) => c as usize,
        Err(e) => return Err(e),
    };
    let ghost p1 = *pos as int;
    proof {
        lemma_rest_split(data@, p0, p1);
        crate::codec::lemma_be16_of(data@.subrange(p0, p1));
    }
    let v = match read_channels(data, pos, count) {
        Ok(v) => v,
        Err(e) => return Err(e),
    };
    proof {
        lemma_rest_split(data@, p1, *pos as int);
    }
    Ok(v)
}

} // verus!

verus! {

/// The head (server id, name, kind) is determined by its encoding, whatever follows.
proof fn lemma_head_unique(
    id1: [u8; 32], n1: Seq<char>, k1: ServerKind, t1: Seq<u8>,
    id2: [u8; 32], n2: Seq<char>, k2: ServerKind, t2: Seq<u8>,
)
    requires
        string_fits(n1),
        string_fits(n2),
        id1@ + (enc_string(n1) + (seq![k1.byte()] + t1)) == id2@ + (enc_string(n2) + (seq![k2.byte()] + t2)),
    ensures
        id1 == id2,
        n1 == n2,
        k1 == k2,
        t1 == t2,
{
    let x = id1@ + (enc_string(n1) + (seq![k1.byte()] + t1));
    let y = id2@ + (enc_string(n2) + (seq![k2.byte()] + t2));
    assert(x.subrange(0, 32) =~= id1@);
    assert(y.subrange(0, 32) =~= id2@);
    lemma_arr32_eq(id1, id2);
    assert(x.subrange(32, x.len() as int) =~= enc_string(n1) + (seq![k1.byte()] + t1));
    assert(y.subrange(32, y.len() as int) =~= enc_string(n2) + (seq![k2.byte()] + t2));
    lemma_string_unique(n1, n2, seq![k1.byte()] + t1, seq![k2.byte()] + t2);
    assert((seq![k1.byte()] + t1)[0] == k1.byte());
    assert((seq![k2.byte()] + t2)[0] == k2.byte());
    crate::kinds::law_server_kind_byte(k1, k2.byte());
    assert(t1 =~= (seq![k1.byte()] + t1).drop_first());
    assert(t2 =~= (seq![k2.byte()] + t2).drop_first());
}

/// A counted member list is determined by its encoding, whatever follows.
proof fn lemma_counted_members_unique(a: Seq<InviteMemberView>, b: Seq<InviteMemberView>, t1: Seq<u8>, t2: Seq<u8>)
    requires
        a.len() <= 0xffff,
        b.len() <= 0xffff,
        all_members_fit(a),
        all_members_fit(b),
        be16(a.len() as u16) + (enc_members(a) + t1) == be16(b.len() as u16) + (enc_members(b) + t2),
    ensures
        a == b,
        t1 == t2,
{
    let x = be16(a.len() as u16) + (enc_members(a) + t1);
    let y = be16(b.len() as u16) + (enc_members(b) + t2);
    crate::codec::lemma_be16_roundtrip(a.len() as u16);
    crate::codec::lemma_be16_roundtrip(b.len() as u16);
    assert(x.subrange(0, 2) =~= be16(a.len() as u16));
    assert(y.subrange(0, 2) =~= be16(b.len() as u16));
    assert(x.subrange(2, x.len() as int) =~= enc_members(a) + t1);
    assert(y.subrange(2, y.len() as int) =~= enc_members(b) + t2);
    lemma_members_unique(a, b, t1, t2);
}

/// A counted channel list is determined by its encoding, whatever follows.
proof fn lemma_counted_channels_unique(a: Seq<InviteChannelView>, b: Seq<InviteChannelView>, t1: Seq<u8>, t2: Seq<u8>)
    requires
        a.len() <= 0xffff,
        b.len() <= 0xffff,
        all_channels_fit(a),
        all_channels_fit(b),
        be16(a.len() as u16) + (enc_channels(a) + t1) == be16(b.len() as u16) + (enc_channels(b) + t2),
    ensures
        a == b,
        t1 == t2,
{
    let x = be16(a.len() as u16) + (enc_channels(a) + t1);
    let y = be16(b.len() as u16) + (enc_channels(b) + t2);
    crate::codec::lemma_be16_roundtrip(a.len() as u16);
    crate::codec::lemma_be16_roundtrip(b.len() as u16);
    assert(x.subrange(0, 2) =~= be16(a.len() as u16));
    assert(y.subrange(0, 2) =~= be16(b.len() as u16));
    assert(x.subrange(2, x.len() as int) =~= enc_channels(a) + t1);
    assert(y.subrange(2, y.len() as int) =~= enc_channels(b) + t2);
    lemma_channels_unique(a, b, t1, t2);
}

impl InvitePayload {
    pub fn to_bytes(&self) -> (out: Vec<u8>)
        ensures
            out@ == enc_invite(self@),
    {
        let mut buf: Vec<u8> = Vec::new();
        put_bytes(&mut buf, &self.server_id);
        write_string(&mut buf, self.server_name.as_str());
        buf.push(self.kind.to_byte());
        crate::codec::put_u16(&mut buf, self.members.len() as u16);
        write_members(&mut buf, &self.members);
        crate::codec::put_u16(&mut buf, self.channels.len() as u16);
        write_channels(&mut buf, &self.channels);
        crate::codec::put_u32(&mut buf, self.group_info_bytes.len() as u32);
        put_bytes(&mut buf, self.group_info_bytes.as_slice());
        assert(buf@ =~= enc_invite(self@));
        buf
    }

    /// Deserializes an invite; succeeds exactly on the encodings of well-formed invites.
    pub fn from_bytes(data: &[u8]) -> (r: Result<InvitePayload, GhostError>)
        ensures
            match r {
                Ok(p) => invite_wf(p@) && enc_invite(p@) == data@,
                Err(e) => e is Format && !exists|v: InvitePayloadView| invite_wf(v) && enc_invite(v) == data@,
            },
    {
        let ghost has = exists|v: InvitePayloadView| invite_wf(v) && enc_invite(v) == data@;
        let ghost w = choose|v: InvitePayloadView| invite_wf(v) && enc_invite(v) == data@;
        let ghost after_head = be16(w.members.len() as u16) + (enc_members(w.members)
            + (be16(w.channels.len() as u16) + (enc_channels(w.channels)
            + (be32(w.group_info.len() as u32) + w.group_info))));
        let ghost after_members = be16(w.channels.len() as u16) + (enc_channels(w.channels)
            + (be32(w.group_info.len() as u32) + w.group_info));
        let ghost after_channels = be32(w.group_info.len() as u32) + w.group_info;
        let mut pos: usize = 0;
        assert(rest(data@, 0) =~= data@);
        let head = match read_head(data, &mut pos) {
            Ok(h) => h,
            Err(e) => {
                proof {
                    if has {
                        assert(rest(data@, 0) == w.server_id@ + (enc_string(w.server_name)
                            + (seq![w.kind.byte()] + after_head)));
                    }
                }
                return Err(e);
            },
        };
        let ghost p1 = pos as int;
        proof {
            if has {
                lemma_head_unique(head.server_id, head.server_name@, head.kind, rest(data@, p1),
                    w.server_id, w.server_name, w.kind, after_head);
            }
        }
        let members = match read_counted_members(data, &mut pos) {
            Ok(v) => v,
            Err(e) => {
                proof {
                    if has {
                        assert(rest(data@, p1) == be16(w.members.len() as u16) + (enc_members(w.members) + after_members));
                    }
                }
                return Err(e);
            },
        };
        let ghost p2 = pos as int;
        proof {
            if has {
                lemma_counted_members_unique(members_view(members@), w.members, rest(data@, p2), after_members);
            }
        }
        let channels = match read_counted_channels(data, &mut pos) {
            Ok(v) => v,
            Err(e) => {
                proof {
                    if has {
                        assert(rest(data@, p2) == be16(w.channels.len() as u16) + (enc_channels(w.channels) + after_channels));
                    }
                }
                return Err(e);
            },
        };
        let ghost p3 = pos as int;
        proof {
            if has {
                lemma_counted_channels_unique(channels_view(channels@), w.channels, rest(data@, p3), after_channels);
                crate::codec::lemma_take(data@, p3, be32(w.group_info.len() as u32), w.group_info);
                crate::codec::lemma_be32_roundtrip(w.group_info.len() as u32);
            }
        }
        let gi_len = match crate::codec::read_u32(data, &mut pos) {
            Ok(v) => v as usize,
            Err(e) => return Err(e),
        };
        proof {
            lemma_rest_split(data@, p3, pos as int);
            crate::codec::lemma_be32_of(data@.subrange(p3, pos as int));
        }
        if data.len() - pos != gi_len {
            return Err(format_err("group info length mismatch"));
        }
        let group_info_bytes = vstd::slice::slice_to_vec(vstd::slice::slice_subrange(data, pos, data.len()));
        let p = InvitePayload {
            server_id: head.server_id,
            server_name: head.server_name,
            kind: head.kind,
            members,
            channels,
            group_info_bytes,
        };
        proof {
            assert(enc_invite(p@) =~= data@);
        }
        Ok(p)
    }
}

impl ProvisionPayload {
    pub fn to_bytes(&self) -> (out: Vec<u8>)
        ensures
            out@ == enc_provision(self@),
    {
        let mut buf: Vec<u8> = Vec::new();
        put_bytes(&mut buf, &self.server_id);
        write_string(&mut buf, self.server_name.as_str());
        buf.push(self.kind.to_byte());
        crate::codec::put_u16(&mut buf, self.members.len() as u16);
        write_members(&mut buf, &self.members);
        crate::codec::put_u16(&mut buf, self.channels.len() as u16);
        write_channels(&mut buf, &self.channels);
        put_bytes(&mut buf, &self.mailbox_id);
        assert(buf@ =~= enc_provision(self@));
        buf
    }

    /// Deserializes a provision payload; succeeds exactly on the encodings of
    /// well-formed payloads (no trailing bytes).
    pub fn from_bytes(data: &[u8]) -> (r: Result<ProvisionPayload, GhostError>)
        ensures
            match r {
                Ok(p) => provision_wf(p@) && enc_provision(p@) == data@,
                Err(e) => e is Format && !exists|v: ProvisionPayloadView| provision_wf(v) && enc_provision(v) == data@,
            },
    {
        let ghost has = exists|v: ProvisionPayloadView| provision_wf(v) && enc_provision(v) == data@;
        let ghost w = choose|v: ProvisionPayloadView| provision_wf(v) && enc_provision(v) == data@;
        let ghost after_head = be16(w.members.len() as u16) + (enc_members(w.members)
            + (be16(w.channels.len() as u16) + (enc_channels(w.channels) + w.mailbox_id@)));
        let ghost after_members = be16(w.channels.len() as u16) + (enc_channels(w.channels) + w.mailbox_id@);
        let ghost after_channels = w.mailbox_id@;
        let mut pos: usize = 0;
        assert(rest(data@, 0) =~= data@);
        let head = match read_head(data, &mut pos) {
            Ok(h) => h,
            Err(e) => {
                proof {
                    if has {
                        assert(rest(data@, 0) == w.server_id@ + (enc_string(w.server_name)
                            + (seq![w.kind.byte()] + after_head)));
                    }
                }
                return Err(e);
            },
        };
        let ghost p1 = pos as int;
        proof {
            if has {
                lemma_head_unique(head.server_id, head.server_name@, head.kind, rest(data@, p1),
                    w.server_id, w.server_name, w.kind, after_head);
            }
        }
        let members = match read_counted_members(data, &mut pos) {
            Ok(v) => v,
            Err(e) => {
                proof {
                    if has {
                        assert(rest(data@, p1) == be16(w.members.len() as u16) + (enc_members(w.members) + after_members));
                    }
                }
                return Err(e);
            },
        };
        let ghost p2 = pos as int;
        proof {
            if has {
                lemma_counted_members_unique(members_view(members@), w.members, rest(data@, p2), after_members);
            }
        }
        let channels = match read_counted_channels(data, &mut pos) {
            Ok(v) => v,
            Err(e) => {
                proof {
                    if has {
                        assert(rest(data@, p2) == be16(w.channels.len() as u16) + (enc_channels(w.channels) + after_channels));
                    }
                }
                return Err(e);
            },
        };
        let ghost p3 = pos as int;
        proof {
            if has {
                lemma_counted_channels_unique(channels_view(channels@), w.channels, rest(data@, p3), after_channels);
                crate::codec::lemma_take(data@, p3, w.mailbox_id@, Seq::<u8>::empty());
                assert(w.mailbox_id@ + Seq::<u8>::empty() =~= w.mailbox_id@);
            }
        }
        let mailbox_id = match read_blob32(data, &mut pos) {
            Ok(v) => v,
            Err(e) => return Err(e),
        };
        proof {
            lemma_rest_split(data@, p3, pos as int);
        }
        if pos != data.len() {
            proof {
                if has {
                    assert(rest(data@, pos as int).len() == 0);
                }
            }
            return Err(format_err("provision payload has trailing bytes"));
        }
        let p = ProvisionPayload {
            server_id: head.server_id,
            server_name: head.server_name,
            kind: head.kind,
            members,
            channels,
            mailbox_id,
        };
        proof {
            assert(rest(data@, pos as int) =~= Seq::<u8>::empty());
            assert(enc_provision(p@) =~= data@);
        }
        Ok(p)
    }
}

} // verus!

verus! {

/// An invite's wire bytes determine it: two well-formed invites with the same
/// encoding are the same invite. With `to_bytes` writing `enc_invite` and
/// `from_bytes` accepting exactly such encodings, reading back what was
/// written gives the original invite.
pub proof fn law_invite_encoding_injective(a: InvitePayloadView, b: InvitePayloadView)
    requires
        invite_wf(a),
        invite_wf(b),
        enc_invite(a) == enc_invite(b),
    ensures
        a == b,
{
    let ta = be16(a.members.len() as u16) + (enc_members(a.members) + (be16(a.channels.len() as u16)
        + (enc_channels(a.channels) + (be32(a.group_info.len() as u32) + a.group_info))));
    let tb = be16(b.members.len() as u16) + (enc_members(b.members) + (be16(b.channels.len() as u16)
        + (enc_channels(b.channels) + (be32(b.group_info.len() as u32) + b.group_info))));
    lemma_head_unique(a.server_id, a.server_name, a.kind, ta, b.server_id, b.server_name, b.kind, tb);
    let ua = be16(a.channels.len() as u16) + (enc_channels(a.channels) + (be32(a.group_info.len() as u32) + a.group_info));
    let ub = be16(b.channels.len() as u16) + (enc_channels(b.channels) + (be32(b.group_info.len() as u32) + b.group_info));
    lemma_counted_members_unique(a.members, b.members, ua, ub);
    lemma_counted_channels_unique(a.channels, b.channels, be32(a.group_info.len() as u32) + a.group_info,
        be32(b.group_info.len() as u32) + b.group_info);
    let x = be32(a.group_info.len() as u32) + a.group_info;
    let y = be32(b.group_info.len() as u32) + b.group_info;
    crate::codec::lemma_be32_roundtrip(a.group_info.len() as u32);
    crate::codec::lemma_be32_roundtrip(b.group_info.len() as u32);
    assert(x.subrange(0, 4) =~= be32(a.group_info.len() as u32));
    assert(y.subrange(0, 4) =~= be32(b.group_info.len() as u32));
    assert(x.subrange(4, x.len() as int) =~= a.group_info);
    assert(y.subrange(4, y.len() as int) =~= b.group_info);
}

/// A provision payload's wire bytes determine it: two well-formed payloads with
/// the same encoding are the same payload.
pub proof fn law_provision_encoding_injective(a: ProvisionPayloadView, b: ProvisionPayloadView)
    requires
        provision_wf(a),
        provision_wf(b),
        enc_provision(a) == enc_provision(b),
    ensures
        a == b,
{
    let ta = be16(a.members.len() as u16) + (enc_members(a.members) + (be16(a.channels.len() as u16)
        + (enc_channels(a.channels) + a.mailbox_id@)));
    let tb = be16(b.members.len() as u16) + (enc_members(b.members) + (be16(b.channels.len() as u16)
        + (enc_channels(b.channels) + b.mailbox_id@)));
    lemma_head_unique(a.server_id, a.server_name, a.kind, ta, b.server_id, b.server_name, b.kind, tb);
    lemma_counted_members_unique(a.members, b.members,
        be16(a.channels.len() as u16) + (enc_channels(a.channels) + a.mailbox_id@),
        be16(b.channels.len() as u16) + (enc_channels(b.channels) + b.mailbox_id@));
    lemma_counted_channels_unique(a.channels, b.channels, a.mailbox_id@, b.mailbox_id@);
    lemma_arr32_eq(a.mailbox_id, b.mailbox_id);
}

/// An invite lists the creator with role byte 0 and every other member
/// with role byte 1: the last byte of a member's encoding is 0 exactly when
/// its stored role name is `creator`.
pub proof fn law_invite_member_role_byte(m: InviteMemberView)
    ensures
        enc_member(m).last() == m.role.byte(),
        (enc_member(m).last() == 0) == (m.role.name() == "creator"@),
        (enc_member(m).last() == 1) == (m.role.name() == "member"@),
{
    crate::kinds::law_member_role_wire_matches_name(m.role, 0);
}

} // verus!
