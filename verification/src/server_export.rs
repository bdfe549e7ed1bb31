//! The server metadata a member hands on: the invite payload a creator gives
//! out and the provisioning payload sent to a newly linked device, both built
//! from the records the local store keeps.

use vstd::prelude::*;

use crate::ids::{mailbox_id_of, mls_group_mailbox_id};
use crate::kinds::ServerKind;
use crate::payload::{
    channels_view, members_view, InviteChannel, InviteChannelView, InviteMember, InviteMemberView,
    InvitePayload, ProvisionPayload,
};
use crate::records::{Channel, Member, Server};

verus! {

/// How a stored member is listed in an invite: fingerprint, name and role.
pub open spec fn listed_member(m: Member) -> InviteMemberView {
    InviteMemberView { fingerprint: m.fingerprint, display_name: m.display_name@, role: m.role }
}

/// How a stored channel is listed in an invite: id, name, kind and position.
pub open spec fn listed_channel(c: Channel) -> InviteChannelView {
    InviteChannelView { channel_id: c.channel_id, name: c.name@, kind: c.kind, position: c.position }
}

/// The invite listing of each stored member, in order.
pub open spec fn listed_members(ms: Seq<Member>) -> Seq<InviteMemberView> {
    ms.map_values(|m: Member| listed_member(m))
}

/// The invite listing of each stored channel, in order.
pub open spec fn listed_channels(cs: Seq<Channel>) -> Seq<InviteChannelView> {
    cs.map_values(|c: Channel| listed_channel(c))
}

/// Lists the stored members as an invite carries them, keeping their order.
pub fn invite_members(members: &[Member]) -> (out: Vec<InviteMember>)
    ensures
        members_view(out@) == listed_members(members@),
{
    let mut out: Vec<InviteMember> = Vec::new();
    for i in 0..members.len()
        invariant
            members_view(out@) == listed_members(members@.take(i as int)),
    {
        let m = &members[i];
        let ghost before = out@;
        out.push(InviteMember { fingerprint: m.fingerprint, display_name: m.display_name.clone(), role: m.role });
        assert(listed_members(members@.take(i + 1)) =~= listed_members(members@.take(i as int)).push(
            listed_member(members@[i as int]),
        ));
        assert(members_view(out@) =~= members_view(before).push(out@.last()@));
    }
    assert(members@.take(members@.len() as int) =~= members@);
    out
}

/// Lists the stored channels as an invite carries them, keeping their order.
pub fn invite_channels(channels: &[Channel]) -> (out: Vec<InviteChannel>)
    ensures
        channels_view(out@) == listed_channels(channels@),
{
    let mut out: Vec<InviteChannel> = Vec::new();
    for i in 0..channels.len()
        invariant
            channels_view(out@) == listed_channels(channels@.take(i as int)),
    {
        let c = &channels[i];
        let ghost before = out@;
        out.push(InviteChannel { channel_id: c.channel_id, name: c.name.clone(), kind: c.kind, position: c.position });
        assert(listed_channels(channels@.take(i + 1)) =~= listed_channels(channels@.take(i as int)).push(
            listed_channel(channels@[i as int]),
        ));
        assert(channels_view(out@) =~= channels_view(before).push(out@.last()@));
    }
    assert(channels@.take(channels@.len() as int) =~= channels@);
    out
}

/// The invite a creator gives out: the server's id, name and kind, its
/// members and channels as stored, and the MLS GroupInfo to join with.
pub fn build_invite_payload(
    server_id: &[u8; 32],
    server_name: &str,
    kind: ServerKind,
    members: &[Member],
    channels: &[Channel],
    group_info_bytes: Vec<u8>,
) -> (p: InvitePayload)
    ensures
        p@.server_id == *server_id,
        p@.server_name == server_name@,
        p@.kind == kind,
        p@.members == listed_members(members@),
        p@.channels == listed_channels(channels@),
        p@.group_info == group_info_bytes@,
{
    InvitePayload {
        server_id: *server_id,
        server_name: server_name.to_string(),
        kind,
        members: invite_members(members),
        channels: invite_channels(channels),
        group_info_bytes,
    }
}

/// The payload that provisions a sibling device with a server: the stored
/// server metadata, members and channels, and the relay mailbox of the
/// server's MLS group.
pub fn export_provision_payload(
    server_id: &[u8; 32],
    meta: &Server,
    members: &[Member],
    channels: &[Channel],
    mls_group_id: &[u8],
) -> (p: ProvisionPayload)
    ensures
        p@.server_id == *server_id,
        p@.server_name == meta.name@,
        p@.kind == meta.kind,
        p@.members == listed_members(members@),
        p@.channels == listed_channels(channels@),
        p@.mailbox_id@ == mailbox_id_of(mls_group_id@),
{
    ProvisionPayload {
        server_id: *server_id,
        server_name: meta.name.clone(),
        kind: meta.kind,
        members: invite_members(members),
        channels: invite_channels(channels),
        mailbox_id: mls_group_mailbox_id(mls_group_id),
    }
}

} // verus!
