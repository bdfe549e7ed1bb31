//! Metadata messages: channel operations, member announcements and avatar
//! updates, with their tagged wire encodings.

use vstd::prelude::*;

use crate::codec::{
    be_i32, enc_string, lemma_arr32_eq, lemma_be_i32_of, lemma_be_i32_roundtrip,
    lemma_read_string_window, lemma_rest_split, lemma_string_at, lemma_string_unique, lemma_take, put_bytes, put_i32,
    read_blob32, read_i32, read_string, read_u8, rest, string_fits, write_string,
};
use crate::error::{GhostError, format_err};
use crate::kinds::{ChannelKind, law_channel_kind_byte};

verus! {

pub const CHANNEL_OP_CREATE: u8 = 0x01u8;
pub const CHANNEL_OP_RENAME: u8 = 0x02u8;
pub const CHANNEL_OP_DELETE: u8 = 0x03u8;
pub const MEMBER_ANNOUNCE: u8 = 0x10u8;
pub const AVATAR_UPDATE: u8 = 0x11u8;
pub const AVATAR_CLEAR: u8 = 0x12u8;

/// A change to a server's channel list.
pub enum ChannelOpPayload {
    Create { channel_id: [u8; 32], name: String, kind: ChannelKind, position: i32 },
    Rename { channel_id: [u8; 32], name: String },
    Delete { channel_id: [u8; 32] },
}

/// The abstract value of a [`ChannelOpPayload`].
pub enum ChannelOpView {
    Create { channel_id: [u8; 32], name: Seq<char>, kind: ChannelKind, position: i32 },
    Rename { channel_id: [u8; 32], name: Seq<char> },
    Delete { channel_id: [u8; 32] },
}

impl View for ChannelOpPayload {
    type V = ChannelOpView;

    open spec fn view(&self) -> ChannelOpView {
        match self {
            ChannelOpPayload::Create { channel_id, name, kind, position } =>
                ChannelOpView::Create { channel_id: *channel_id, name: name@, kind: *kind, position: *position },
            ChannelOpPayload::Rename { channel_id, name } =>
                ChannelOpView::Rename { channel_id: *channel_id, name: name@ },
            ChannelOpPayload::Delete { channel_id } => ChannelOpView::Delete { channel_id: *channel_id },
        }
    }
}

/// Wire bytes of a channel operation: its tag, then its fields.
pub open spec fn enc_channel_op(op: ChannelOpView) -> Seq<u8> {
    match op {
        ChannelOpView::Create { channel_id, name, kind, position } =>
            seq![CHANNEL_OP_CREATE] + (channel_id@ + (seq![kind.byte()] + (be_i32(position) + enc_string(name)))),
        ChannelOpView::Rename { channel_id, name } =>
            seq![CHANNEL_OP_RENAME] + (channel_id@ + enc_string(name)),
        ChannelOpView::Delete { channel_id } => seq![CHANNEL_OP_DELETE] + channel_id@,
    }
}

/// A channel operation whose name (if any) fits its length prefix.
pub open spec fn channel_op_fits(op: ChannelOpView) -> bool {
    match op {
        ChannelOpView::Create { name, .. } => string_fits(name),
        ChannelOpView::Rename { name, .. } => string_fits(name),
        ChannelOpView::Delete { .. } => true,
    }
}

/// A metadata payload.
pub enum MetadataPayload {
    ChannelOp(ChannelOpPayload),
    MemberAnnounce { display_name: String },
    AvatarUpdate { avatar_hash: [u8; 32], avatar_key: [u8; 32] },
    AvatarClear,
}

/// The abstract value of a [`MetadataPayload`].
pub enum MetadataView {
    ChannelOp(ChannelOpView),
    MemberAnnounce { display_name: Seq<char> },
    AvatarUpdate { avatar_hash: [u8; 32], avatar_key: [u8; 32] },
    AvatarClear,
}

impl View for MetadataPayload {
    type V = MetadataView;

    open spec fn view(&self) -> MetadataView {
        match self {
            MetadataPayload::ChannelOp(op) => MetadataView::ChannelOp(op@),
            MetadataPayload::MemberAnnounce { display_name } => MetadataView::MemberAnnounce { display_name: display_name@ },
            MetadataPayload::AvatarUpdate { avatar_hash, avatar_key } =>
                MetadataView::AvatarUpdate { avatar_hash: *avatar_hash, avatar_key: *avatar_key },
            MetadataPayload::AvatarClear => MetadataView::AvatarClear,
        }
    }
}

/// Wire bytes of a metadata payload.
pub open spec fn enc_metadata(m: MetadataView) -> Seq<u8> {
    match m {
        MetadataView::ChannelOp(op) => enc_channel_op(op),
        MetadataView::MemberAnnounce { display_name } => seq![MEMBER_ANNOUNCE] + enc_string(display_name),
        MetadataView::AvatarUpdate { avatar_hash, avatar_key } =>
            seq![AVATAR_UPDATE] + (avatar_hash@ + avatar_key@),
        MetadataView::AvatarClear => seq![AVATAR_CLEAR],
    }
}

/// A metadata payload whose strings fit their length prefixes.
pub open spec fn metadata_fits(m: MetadataView) -> bool {
    match m {
        MetadataView::ChannelOp(op) => channel_op_fits(op),
        MetadataView::MemberAnnounce { display_name } => string_fits(display_name),
        _ => true,
    }
}

pub fn encode_channel_op(op: &ChannelOpPayload) -> (out: Vec<u8>)
    ensures
        out@ == enc_channel_op(op@),
{
    let mut buf: Vec<u8> = Vec::new();
    match op {
        ChannelOpPayload::Create { channel_id, name, kind, position } => {
            buf.push(CHANNEL_OP_CREATE);
            put_bytes(&mut buf, channel_id);
            buf.push(kind.to_byte());
            put_i32(&mut buf, *position);
            write_string(&mut buf, name.as_str());
        },
        ChannelOpPayload::Rename { channel_id, name } => {
            buf.push(CHANNEL_OP_RENAME);
            put_bytes(&mut buf, channel_id);
            write_string(&mut buf, name.as_str());
        },
        ChannelOpPayload::Delete { channel_id } => {
            buf.push(CHANNEL_OP_DELETE);
            put_bytes(&mut buf, channel_id);
        },
    }
    assert(buf@ =~= enc_channel_op(op@));
    buf
}

/// Reads the 32-byte channel id that follows the tag at offset 1.
proof fn lemma_op_id(data: Seq<u8>, tag: u8, id: [u8; 32], t: Seq<u8>)
    requires
        data == seq![tag] + (id@ + t),
    ensures
        data.len() >= 33,
        data[0] == tag,
        data.subrange(1, 33) == id@,
        rest(data, 33) == t,
{
    assert(data.subrange(1, 33) =~= id@);
    assert(rest(data, 33) =~= t);
}

fn decode_create(data: &[u8]) -> (r: Result<ChannelOpPayload, GhostError>)
    requires
        data@.len() >= 1,
        data@[0] == CHANNEL_OP_CREATE,
    ensures
        match r {
            Ok(op) => channel_op_fits(op@) && exists|t: Seq<u8>| data@ == enc_channel_op(op@) + t,
            Err(e) => e is Format && !exists|v: ChannelOpView, t: Seq<u8>|
                channel_op_fits(v) && data@ == enc_channel_op(v) + t,
        },
{
    let ghost has = exists|v: ChannelOpView, t: Seq<u8>| channel_op_fits(v) && data@ == enc_channel_op(v) + t;
    let ghost (w, wt) = choose|v: ChannelOpView, t: Seq<u8>| channel_op_fits(v) && data@ == enc_channel_op(v) + t;
    let mut pos: usize = 1;
    proof {
        if has {
            assert(data@[0] == enc_channel_op(w)[0]);
        }
    }
    let ghost tc = match w {
        ChannelOpView::Create { channel_id, name, kind, position } =>
            seq![kind.byte()] + (be_i32(position) + (enc_string(name) + wt)),
        _ => Seq::empty(),
    };
    proof {
        if has {
            assert(w is Create);
            assert(data@ =~= seq![CHANNEL_OP_CREATE] + (w->Create_channel_id@ + tc));
            lemma_op_id(data@, CHANNEL_OP_CREATE, w->Create_channel_id, tc);
        }
    }
    let channel_id = match read_blob32(data, &mut pos) {
        Ok(v) => v,
        Err(e) => return Err(e),
    };
    proof {
        if has {
            lemma_arr32_eq(channel_id, w->Create_channel_id);
            lemma_take(data@, 33, seq![w->Create_kind.byte()], be_i32(w->Create_position) + (enc_string(w->Create_name) + wt));
            assert(data@.subrange(33, 34)[0] == data@[33]);
        }
    }
    let kind_byte = match read_u8(data, &mut pos) {
        Ok(b) => b,
        Err(e) => return Err(e),
    };
    let kind = match ChannelKind::from_byte(kind_byte) {
        Ok(k) => k,
        Err(e) => {
            proof {
                if has {
                    law_channel_kind_byte(w->Create_kind, kind_byte);
                }
            }
            return Err(e);
        },
    };
    proof {
        law_channel_kind_byte(kind, kind_byte);
        if has {
            lemma_take(data@, 34, be_i32(w->Create_position), enc_string(w->Create_name) + wt);
            lemma_be_i32_roundtrip(w->Create_position);
        }
    }
    let position = match read_i32(data, &mut pos) {
        Ok(v) => v,
        Err(e) => return Err(e),
    };
    proof {
        lemma_be_i32_of(data@.subrange(34, 38));
        if has {
            lemma_string_at(data@, 38, w->Create_name, wt);
        }
    }
    let name = match read_string(data, &mut pos) {
        Ok(s) => s,
        Err(e) => return Err(e),
    };
    let ghost p = pos as int;
    proof {
        lemma_read_string_window(data@, 38, p - 40, name@);
        lemma_rest_split(data@, 0, p);
        assert(rest(data@, 0) =~= data@);
        let v = ChannelOpView::Create { channel_id, name: name@, kind, position };
        assert(data@.subrange(0, 1) =~= seq![CHANNEL_OP_CREATE]);
        assert(data@.subrange(0, p) =~= data@.subrange(0, 1) + data@.subrange(1, 33) + data@.subrange(33, 34)
            + data@.subrange(34, 38) + data@.subrange(38, p));
        assert(data@.subrange(0, p) =~= enc_channel_op(v));
        assert(data@ == enc_channel_op(v) + rest(data@, p));
    }
    let op = ChannelOpPayload::Create { channel_id, name, kind, position };
    assert(op@ == ChannelOpView::Create { channel_id, name: name@, kind, position });
    return Ok(op);
}

fn decode_rename(data: &[u8]) -> (r: Result<ChannelOpPayload, GhostError>)
    requires
        data@.len() >= 1,
        data@[0] == CHANNEL_OP_RENAME,
    ensures
        match r {
            Ok(op) => channel_op_fits(op@) && exists|t: Seq<u8>| data@ == enc_channel_op(op@) + t,
            Err(e) => e is Format && !exists|v: ChannelOpView, t: Seq<u8>|
                channel_op_fits(v) && data@ == enc_channel_op(v) + t,
        },
{
    let ghost has = exists|v: ChannelOpView, t: Seq<u8>| channel_op_fits(v) && data@ == enc_channel_op(v) + t;
    let ghost (w, wt) = choose|v: ChannelOpView, t: Seq<u8>| channel_op_fits(v) && data@ == enc_channel_op(v) + t;
    let mut pos: usize = 1;
    proof {
        if has {
            assert(data@[0] == enc_channel_op(w)[0]);
        }
    }
    let ghost tc = match w {
        ChannelOpView::Rename { channel_id, name } => enc_string(name) + wt,
        _ => Seq::empty(),
    };
    proof {
        if has {
            assert(w is Rename);
            assert(data@ =~= seq![CHANNEL_OP_RENAME] + (w->Rename_channel_id@ + tc));
            lemma_op_id(data@, CHANNEL_OP_RENAME, w->Rename_channel_id, tc);
        }
    }
    let channel_id = match read_blob32(data, &mut pos) {
        Ok(v) => v,
        Err(e) => return Err(e),
    };
    proof {
        if has {
            lemma_arr32_eq(channel_id, w->Rename_channel_id);
            lemma_string_at(data@, 33, w->Rename_name, wt);
        }
    }
    let name = match read_string(data, &mut pos) {
        Ok(s) => s,
        Err(e) => return Err(e),
    };
    let ghost p = pos as int;
    proof {
        lemma_read_string_window(data@, 33, p - 35, name@);
        lemma_rest_split(data@, 0, p);
        assert(rest(data@, 0) =~= data@);
        let v = ChannelOpView::Rename { channel_id, name: name@ };
        assert(data@.subrange(0, p) =~= enc_channel_op(v));
    }
    return Ok(ChannelOpPayload::Rename { channel_id, name });
}

fn decode_delete(data: &[u8]) -> (r: Result<ChannelOpPayload, GhostError>)
    requires
        data@.len() >= 1,
        data@[0] == CHANNEL_OP_DELETE,
    ensures
        match r {
            Ok(op) => channel_op_fits(op@) && exists|t: Seq<u8>| data@ == enc_channel_op(op@) + t,
            Err(e) => e is Format && !exists|v: ChannelOpView, t: Seq<u8>|
                channel_op_fits(v) && data@ == enc_channel_op(v) + t,
        },
{
    let ghost has = exists|v: ChannelOpView, t: Seq<u8>| channel_op_fits(v) && data@ == enc_channel_op(v) + t;
    let ghost (w, wt) = choose|v: ChannelOpView, t: Seq<u8>| channel_op_fits(v) && data@ == enc_channel_op(v) + t;
    let mut pos: usize = 1;
    proof {
        if has {
            assert(data@[0] == enc_channel_op(w)[0]);
        }
    }
    proof {
        if has {
            assert(w is Delete);
            assert(data@ =~= seq![CHANNEL_OP_DELETE] + (w->Delete_channel_id@ + wt));
            lemma_op_id(data@, CHANNEL_OP_DELETE, w->Delete_channel_id, wt);
        }
    }
    let channel_id = match read_blob32(data, &mut pos) {
        Ok(v) => v,
        Err(e) => return Err(e),
    };
    proof {
        lemma_rest_split(data@, 0, 33);
        assert(rest(data@, 0) =~= data@);
        let v = ChannelOpView::Delete { channel_id };
        assert(data@.subrange(0, 33) =~= enc_channel_op(v));
    }
    return Ok(ChannelOpPayload::Delete { channel_id });
}

/// Decodes a channel operation from the start of `data`; bytes after it are ignored.
/// Succeeds exactly when `data` starts with the encoding of a fitting operation.
pub fn decode_channel_op(data: &[u8]) -> (r: Result<ChannelOpPayload, GhostError>)
    ensures
        match r {
            Ok(op) => channel_op_fits(op@) && exists|t: Seq<u8>| data@ == enc_channel_op(op@) + t,
            Err(e) => e is Format && !exists|v: ChannelOpView, t: Seq<u8>|
                channel_op_fits(v) && data@ == enc_channel_op(v) + t,
        },
{
    let ghost has = exists|v: ChannelOpView, t: Seq<u8>| channel_op_fits(v) && data@ == enc_channel_op(v) + t;
    let ghost (w, wt) = choose|v: ChannelOpView, t: Seq<u8>| channel_op_fits(v) && data@ == enc_channel_op(v) + t;
    let mut pos: usize = 0;
    let op = match read_u8(data, &mut pos) {
        Ok(b) => b,
        Err(e) => {
            proof {
                if has {
                    assert(data@.len() > 0);
                }
            }
            return Err(e);
        },
    };
    if op == CHANNEL_OP_CREATE {
        decode_create(data)
    } else if op == CHANNEL_OP_RENAME {
        decode_rename(data)
    } else if op == CHANNEL_OP_DELETE {
        decode_delete(data)
    } else {
        proof {
            if has {
                assert(data@[0] == enc_channel_op(w)[0]);
            }
        }
        Err(format_err("unknown channel op"))
    }
}

pub fn encode_member_announce(display_name: &str) -> (out: Vec<u8>)
    ensures
        out@ == enc_metadata(MetadataView::MemberAnnounce { display_name: display_name@ }),
{
    let mut buf: Vec<u8> = Vec::new();
    buf.push(MEMBER_ANNOUNCE);
    write_string(&mut buf, display_name);
    buf
}

pub fn encode_avatar_update(avatar_hash: &[u8; 32], avatar_key: &[u8; 32]) -> (out: Vec<u8>)
    ensures
        out@ == enc_metadata(MetadataView::AvatarUpdate { avatar_hash: *avatar_hash, avatar_key: *avatar_key }),
{
    let mut buf: Vec<u8> = Vec::new();
    buf.push(AVATAR_UPDATE);
    put_bytes(&mut buf, avatar_hash);
    put_bytes(&mut buf, avatar_key);
    assert(buf@ =~= seq![AVATAR_UPDATE] + (avatar_hash@ + avatar_key@));
    buf
}

pub fn encode_avatar_clear() -> (out: Vec<u8>)
    ensures
        out@ == enc_metadata(MetadataView::AvatarClear),
{
    let mut buf: Vec<u8> = Vec::new();
    buf.push(AVATAR_CLEAR);
    assert(buf@ =~= seq![AVATAR_CLEAR]);
    buf
}

/// Decodes a metadata payload from the start of `data`; bytes after it are
/// ignored. Succeeds exactly when `data` starts with the encoding of a fitting payload.
pub fn decode_metadata(data: &[u8]) -> (r: Result<MetadataPayload, GhostError>)
    ensures
        match r {
            Ok(m) => metadata_fits(m@) && exists|t: Seq<u8>| data@ == enc_metadata(m@) + t,
            Err(e) => e is Format && !exists|v: MetadataView, t: Seq<u8>|
                metadata_fits(v) && data@ == enc_metadata(v) + t,
        },
{
    let ghost has = exists|v: MetadataView, t: Seq<u8>| metadata_fits(v) && data@ == enc_metadata(v) + t;
    let ghost (w, wt) = choose|v: MetadataView, t: Seq<u8>| metadata_fits(v) && data@ == enc_metadata(v) + t;
    if data.len() == 0 {
        proof {
            if has {
                assert(enc_metadata(w).len() > 0) by {
                    match w {
                        MetadataView::ChannelOp(op) => { assert(enc_channel_op(op).len() > 0); },
                        _ => {},
                    }
                }
            }
        }
        return Err(format_err("empty metadata"));
    }
    let tag = data[0];
    proof {
        if has {
            assert(data@[0] == enc_metadata(w)[0]);
        }
    }
    if tag == CHANNEL_OP_CREATE || tag == CHANNEL_OP_RENAME || tag == CHANNEL_OP_DELETE {
        let op = match decode_channel_op(data) {
            Ok(op) => op,
            Err(e) => {
                proof {
                    if has {
                        assert(w is ChannelOp);
                        assert(data@ == enc_channel_op(w->ChannelOp_0) + wt);
                    }
                }
                return Err(e);
            },
        };
        let m = MetadataPayload::ChannelOp(op);
        proof {
            let t = choose|t: Seq<u8>| data@ == enc_channel_op(op@) + t;
            assert(m@ == MetadataView::ChannelOp(op@));
            assert(data@ == enc_metadata(m@) + t);
        }
        return Ok(m);
    } else if tag == MEMBER_ANNOUNCE {
        let mut pos: usize = 1;
        proof {
            if has {
                assert(w is MemberAnnounce);
                assert(rest(data@, 1) =~= enc_string(w->display_name) + wt);
                lemma_string_at(data@, 1, w->display_name, wt);
            }
        }
        let name = match read_string(data, &mut pos) {
            Ok(s) => s,
            Err(e) => return Err(e),
        };
        let ghost p = pos as int;
        proof {
            lemma_read_string_window(data@, 1, p - 3, name@);
            let v = MetadataView::MemberAnnounce { display_name: name@ };
            assert(data@ =~= enc_metadata(v) + rest(data@, p));
        }
        return Ok(MetadataPayload::MemberAnnounce { display_name: name });
    } else if tag == AVATAR_UPDATE {
        let mut pos: usize = 1;
        proof {
            if has {
                assert(w is AvatarUpdate);
                assert(rest(data@, 1) =~= w->avatar_hash@ + (w->avatar_key@ + wt));
                lemma_take(data@, 1, w->avatar_hash@, w->avatar_key@ + wt);
                lemma_take(data@, 33, w->avatar_key@, wt);
            }
        }
        let avatar_hash = match read_blob32(data, &mut pos) {
            Ok(v) => v,
            Err(e) => return Err(e),
        };
        let avatar_key = match read_blob32(data, &mut pos) {
            Ok(v) => v,
            Err(e) => return Err(e),
        };
        proof {
            let v = MetadataView::AvatarUpdate { avatar_hash, avatar_key };
            assert(data@ =~= enc_metadata(v) + rest(data@, 65));
        }
        return Ok(MetadataPayload::AvatarUpdate { avatar_hash, avatar_key });
    } else if tag == AVATAR_CLEAR {
        proof {
            assert(data@ =~= enc_metadata(MetadataView::AvatarClear) + rest(data@, 1));
        }
        return Ok(MetadataPayload::AvatarClear);
    }
    proof {
        if has {
            match w {
                MetadataView::ChannelOp(op) => {
                    match op {
                        ChannelOpView::Create { .. } => {},
                        ChannelOpView::Rename { .. } => {},
                        ChannelOpView::Delete { .. } => {},
                    }
                },
                _ => {},
            }
        }
    }
    Err(format_err("unknown metadata tag"))
}


proof fn lemma_create_unique(
    ia: [u8; 32], na: Seq<char>, ka: ChannelKind, pa: i32, ta: Seq<u8>,
    ib: [u8; 32], nb: Seq<char>, kb: ChannelKind, pb: i32, tb: Seq<u8>,
)
    requires
        string_fits(na),
        string_fits(nb),
        seq![CHANNEL_OP_CREATE] + (ia@ + (seq![ka.byte()] + (be_i32(pa) + enc_string(na)))) + ta
            == seq![CHANNEL_OP_CREATE] + (ib@ + (seq![kb.byte()] + (be_i32(pb) + enc_string(nb)))) + tb,
    ensures
        ia == ib,
        na == nb,
        ka == kb,
        pa == pb,
        ta == tb,
{
    let x = seq![CHANNEL_OP_CREATE] + (ia@ + (seq![ka.byte()] + (be_i32(pa) + enc_string(na)))) + ta;
    let y = seq![CHANNEL_OP_CREATE] + (ib@ + (seq![kb.byte()] + (be_i32(pb) + enc_string(nb)))) + tb;
    lemma_be_i32_roundtrip(pa);
    lemma_be_i32_roundtrip(pb);
    assert(x.subrange(1, 33) =~= ia@);
    assert(y.subrange(1, 33) =~= ib@);
    lemma_arr32_eq(ia, ib);
    assert(x[33] == ka.byte());
    assert(y[33] == kb.byte());
    law_channel_kind_byte(ka, kb.byte());
    assert(x.subrange(34, 38) =~= be_i32(pa));
    assert(y.subrange(34, 38) =~= be_i32(pb));
    assert(x.subrange(38, x.len() as int) =~= enc_string(na) + ta);
    assert(y.subrange(38, y.len() as int) =~= enc_string(nb) + tb);
    lemma_string_unique(na, nb, ta, tb);
}

proof fn lemma_rename_unique(ia: [u8; 32], na: Seq<char>, ta: Seq<u8>, ib: [u8; 32], nb: Seq<char>, tb: Seq<u8>)
    requires
        string_fits(na),
        string_fits(nb),
        seq![CHANNEL_OP_RENAME] + (ia@ + enc_string(na)) + ta == seq![CHANNEL_OP_RENAME] + (ib@ + enc_string(nb)) + tb,
    ensures
        ia == ib,
        na == nb,
        ta == tb,
{
    let x = seq![CHANNEL_OP_RENAME] + (ia@ + enc_string(na)) + ta;
    let y = seq![CHANNEL_OP_RENAME] + (ib@ + enc_string(nb)) + tb;
    assert(x.subrange(1, 33) =~= ia@);
    assert(y.subrange(1, 33) =~= ib@);
    lemma_arr32_eq(ia, ib);
    assert(x.subrange(33, x.len() as int) =~= enc_string(na) + ta);
    assert(y.subrange(33, y.len() as int) =~= enc_string(nb) + tb);
    lemma_string_unique(na, nb, ta, tb);
}

proof fn lemma_delete_unique(ia: [u8; 32], ta: Seq<u8>, ib: [u8; 32], tb: Seq<u8>)
    requires
        seq![CHANNEL_OP_DELETE] + ia@ + ta == seq![CHANNEL_OP_DELETE] + ib@ + tb,
    ensures
        ia == ib,
        ta == tb,
{
    let x = seq![CHANNEL_OP_DELETE] + ia@ + ta;
    let y = seq![CHANNEL_OP_DELETE] + ib@ + tb;
    assert(x.subrange(1, 33) =~= ia@);
    assert(y.subrange(1, 33) =~= ib@);
    lemma_arr32_eq(ia, ib);
    assert(x.subrange(33, x.len() as int) =~= ta);
    assert(y.subrange(33, y.len() as int) =~= tb);
}

/// A channel operation's wire bytes determine it, whatever follows them: two
/// fitting operations whose encodings start two equal byte strings are the
/// same operation, followed by the same bytes. With `encode_channel_op`
/// writing `enc_channel_op` and `decode_channel_op` accepting exactly such
/// encodings, decoding what was encoded gives the operation back.
pub proof fn law_channel_op_reads_back(a: ChannelOpView, b: ChannelOpView, ta: Seq<u8>, tb: Seq<u8>)
    requires
        channel_op_fits(a),
        channel_op_fits(b),
        enc_channel_op(a) + ta == enc_channel_op(b) + tb,
    ensures
        a == b,
        ta == tb,
{
    let x = enc_channel_op(a) + ta;
    assert(x[0] == enc_channel_op(a)[0]);
    assert(x[0] == enc_channel_op(b)[0]);
    match (a, b) {
        (
            ChannelOpView::Create { channel_id: ia, name: na, kind: ka, position: pa },
            ChannelOpView::Create { channel_id: ib, name: nb, kind: kb, position: pb },
        ) => {
            lemma_create_unique(ia, na, ka, pa, ta, ib, nb, kb, pb, tb);
        },
        (ChannelOpView::Rename { channel_id: ia, name: na }, ChannelOpView::Rename { channel_id: ib, name: nb }) => {
            lemma_rename_unique(ia, na, ta, ib, nb, tb);
        },
        (ChannelOpView::Delete { channel_id: ia }, ChannelOpView::Delete { channel_id: ib }) => {
            lemma_delete_unique(ia, ta, ib, tb);
        },
        _ => {},
    }
}

/// The first byte of a channel operation's encoding is one of its three tags.
proof fn lemma_channel_op_tag(op: ChannelOpView)
    ensures
        enc_channel_op(op).len() > 0,
        1 <= enc_channel_op(op)[0] <= 3,
{
}

/// A metadata payload's wire bytes determine it, whatever follows them. With
/// `decode_metadata` accepting exactly the encodings of fitting payloads,
/// decoding what the encoders wrote gives the payload back.
pub proof fn law_metadata_reads_back(a: MetadataView, b: MetadataView, ta: Seq<u8>, tb: Seq<u8>)
    requires
        metadata_fits(a),
        metadata_fits(b),
        enc_metadata(a) + ta == enc_metadata(b) + tb,
    ensures
        a == b,
        ta == tb,
{
    let x = enc_metadata(a) + ta;
    if let MetadataView::ChannelOp(op) = a {
        lemma_channel_op_tag(op);
    }
    if let MetadataView::ChannelOp(op) = b {
        lemma_channel_op_tag(op);
    }
    assert(x[0] == enc_metadata(a)[0]);
    assert(x[0] == enc_metadata(b)[0]);
    match (a, b) {
        (MetadataView::ChannelOp(oa), MetadataView::ChannelOp(ob)) => {
            law_channel_op_reads_back(oa, ob, ta, tb);
        },
        (MetadataView::MemberAnnounce { display_name: na }, MetadataView::MemberAnnounce { display_name: nb }) => {
            assert(x.subrange(1, x.len() as int) =~= enc_string(na) + ta);
            assert(x.subrange(1, x.len() as int) =~= enc_string(nb) + tb);
            lemma_string_unique(na, nb, ta, tb);
        },
        (
            MetadataView::AvatarUpdate { avatar_hash: ha, avatar_key: ka },
            MetadataView::AvatarUpdate { avatar_hash: hb, avatar_key: kb },
        ) => {
            assert(x.subrange(1, 33) =~= ha@);
            assert(x.subrange(1, 33) =~= hb@);
            assert(x.subrange(33, 65) =~= ka@);
            assert(x.subrange(33, 65) =~= kb@);
            lemma_arr32_eq(ha, hb);
            lemma_arr32_eq(ka, kb);
            assert(x.subrange(65, x.len() as int) =~= ta);
            assert(x.subrange(65, x.len() as int) =~= tb);
        },
        (MetadataView::AvatarClear, MetadataView::AvatarClear) => {
            assert(x.subrange(1, x.len() as int) =~= ta);
            assert(x.subrange(1, x.len() as int) =~= tb);
        },
        _ => {},
    }
}

} // verus!
