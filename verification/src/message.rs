//! The frames of the control stream.
//!
//! A frame is one tag byte and then the fields of its variant: numbers as
//! variable-length integers, names as length-prefixed byte strings, a role as
//! one byte. A frame carries no length of its own: the decoder finds its end by
//! reading it.

use crate::buffer::{contents, put_u8};
use crate::blob::{
    blob_at, blob_bytes, decode_blob, lemma_blob_bounds, lemma_blob_completes,
    lemma_blob_round_trip, lemma_blob_settled, put_blob,
};
use crate::coding::{holds_at, lemma_holds_at_split, zeros, DecodeOutcome, EncodeError, Outcome};
use crate::list::{
    all_in_bounds, decode_list, in_bounds, lemma_list_bounds, lemma_list_completes,
    lemma_list_round_trip, lemma_list_settled, list_at, list_bytes, put_list,
};
use crate::varint::{
    decode_varint, lemma_varint_bounds, lemma_varint_completes, lemma_varint_round_trip,
    lemma_varint_settled, put_varint, varint_at, varint_bytes, VARINT_MAX,
};
use crate::wire::Wire;
use bytes::BytesMut;
use vstd::prelude::*;

verus! {

pub const TAG_SETUP_CLIENT: u8 = 0x01;

pub const TAG_SETUP_SERVER: u8 = 0x02;

pub const TAG_SUBSCRIBE: u8 = 0x03;

pub const TAG_SUBSCRIBE_OK: u8 = 0x04;

pub const TAG_ANNOUNCE: u8 = 0x06;

pub const TAG_GO_AWAY: u8 = 0x10;

/// What an endpoint intends to do in the session.
#[derive(Debug, Clone, Copy, PartialEq, Eq)]
pub enum Role {
    Publisher,
    Subscriber,
    Both,
}

impl View for Role {
    type V = Role;

    open spec fn view(&self) -> Role {
        *self
    }
}

impl Role {
    /// The byte that stands for the role on the stream.
    pub open spec fn spec_byte(self) -> u8 {
        match self {
            Role::Publisher => 1,
            Role::Subscriber => 2,
            Role::Both => 3,
        }
    }

    /// The role that a byte stands for, if any.
    pub open spec fn spec_from_byte(byte: u8) -> Option<Role> {
        if byte == 1 {
            Some(Role::Publisher)
        } else if byte == 2 {
            Some(Role::Subscriber)
        } else if byte == 3 {
            Some(Role::Both)
        } else {
            None
        }
    }

    /// The byte that stands for the role on the stream.
    pub fn byte(self) -> (b: u8)
        ensures
            b == self.spec_byte(),
            Role::spec_from_byte(b) == Some(self),
    {
        match self {
            Role::Publisher => 1,
            Role::Subscriber => 2,
            Role::Both => 3,
        }
    }

    /// The role that a byte stands for, if any.
    pub fn from_byte(byte: u8) -> (r: Option<Role>)
        ensures
            r == Role::spec_from_byte(byte),
    {
        if byte == 1 {
            Some(Role::Publisher)
        } else if byte == 2 {
            Some(Role::Subscriber)
        } else if byte == 3 {
            Some(Role::Both)
        } else {
            None
        }
    }
}

/// Decoding a role at `pos`: one byte, malformed unless it stands for a role.
pub open spec fn role_at(b: Seq<u8>, pos: int) -> Outcome<Role> {
    if pos < 0 || pos >= b.len() {
        Outcome::NeedMoreData
    } else {
        match Role::spec_from_byte(b[pos]) {
            Some(role) => Outcome::Decoded { value: role, consumed: 1 },
            None => Outcome::Malformed,
        }
    }
}

/// Reads the role at `pos`.
pub fn decode_role(b: &[u8], pos: usize) -> (r: DecodeOutcome<Role>)
    ensures
        r@ == role_at(b@, pos as int),
{
    if pos >= b.len() {
        return DecodeOutcome::NeedMoreData;
    }
    match Role::from_byte(b[pos]) {
        Some(role) => DecodeOutcome::Decoded { value: role, consumed: 1 },
        None => DecodeOutcome::Malformed,
    }
}

/// The first frame of a session: what the client offers.
#[derive(Debug, Clone, PartialEq, Eq)]
pub struct SetupClient {
    /// The protocol versions that the client can speak, in its order of
    /// preference.
    pub versions: Vec<u64>,
    pub role: Role,
}

/// A client's offer, as a mathematical value.
pub struct SetupClientView {
    pub versions: Seq<u64>,
    pub role: Role,
}

impl View for SetupClient {
    type V = SetupClientView;

    open spec fn view(&self) -> SetupClientView {
        SetupClientView { versions: self.versions@, role: self.role }
    }
}

/// The answer to a client's offer: the version that the server chose.
#[derive(Debug, Clone, Copy, PartialEq, Eq)]
pub struct SetupServer {
    pub version: u64,
    pub role: Role,
}

impl View for SetupServer {
    type V = SetupServer;

    open spec fn view(&self) -> SetupServer {
        *self
    }
}

/// A frame of the control stream.
#[derive(Debug, Clone, PartialEq, Eq)]
pub enum Message {
    SetupClient(SetupClient),
    SetupServer(SetupServer),
    /// Asks for the track called `name`, to be delivered under the number
    /// `track`.
    Subscribe { track: u64, name: Vec<u8> },
    /// Grants the subscription to `track`.
    SubscribeOk { track: u64 },
    /// Offers the tracks under `namespace`.
    Announce { namespace: Vec<u8> },
    /// Asks the peer to move to the session at `url`.
    GoAway { url: Vec<u8> },
}

/// A frame of the control stream, as a mathematical value.
pub enum MessageView {
    SetupClient(SetupClientView),
    SetupServer(SetupServer),
    Subscribe { track: u64, name: Seq<u8> },
    SubscribeOk { track: u64 },
    Announce { namespace: Seq<u8> },
    GoAway { url: Seq<u8> },
}

impl View for Message {
    type V = MessageView;

    open spec fn view(&self) -> MessageView {
        match self {
            Message::SetupClient(s) => MessageView::SetupClient(s@),
            Message::SetupServer(s) => MessageView::SetupServer(*s),
            Message::Subscribe { track, name } => MessageView::Subscribe {
                track: *track,
                name: name@,
            },
            Message::SubscribeOk { track } => MessageView::SubscribeOk { track: *track },
            Message::Announce { namespace } => MessageView::Announce { namespace: namespace@ },
            Message::GoAway { url } => MessageView::GoAway { url: url@ },
        }
    }
}

impl From<SetupClient> for Message {
    fn from(setup: SetupClient) -> (msg: Message) {
        Message::SetupClient(setup)
    }
}

impl vstd::std_specs::convert::FromSpecImpl<SetupClient> for Message {
    open spec fn obeys_from_spec() -> bool {
        true
    }

    open spec fn from_spec(setup: SetupClient) -> Message {
        Message::SetupClient(setup)
    }
}

impl From<SetupServer> for Message {
    fn from(setup: SetupServer) -> (msg: Message) {
        Message::SetupServer(setup)
    }
}

impl vstd::std_specs::convert::FromSpecImpl<SetupServer> for Message {
    open spec fn obeys_from_spec() -> bool {
        true
    }

    open spec fn from_spec(setup: SetupServer) -> Message {
        Message::SetupServer(setup)
    }
}

impl MessageView {
    /// The tag byte of the frame's variant.
    pub open spec fn tag(self) -> u8 {
        match self {
            MessageView::SetupClient(_) => TAG_SETUP_CLIENT,
            MessageView::SetupServer(_) => TAG_SETUP_SERVER,
            MessageView::Subscribe { .. } => TAG_SUBSCRIBE,
            MessageView::SubscribeOk { .. } => TAG_SUBSCRIBE_OK,
            MessageView::Announce { .. } => TAG_ANNOUNCE,
            MessageView::GoAway { .. } => TAG_GO_AWAY,
        }
    }

    /// The fields of the frame on the stream, after the tag byte.
    pub open spec fn body(self) -> Seq<u8> {
        match self {
            MessageView::SetupClient(s) => list_bytes(s.versions) + seq![s.role.spec_byte()],
            MessageView::SetupServer(s) => varint_bytes(s.version) + seq![s.role.spec_byte()],
            MessageView::Subscribe { track, name } => varint_bytes(track) + blob_bytes(name),
            MessageView::SubscribeOk { track } => varint_bytes(track),
            MessageView::Announce { namespace } => blob_bytes(namespace),
            MessageView::GoAway { url } => blob_bytes(url),
        }
    }

    /// Whether every number and length of the frame fits a variable-length
    /// integer.
    pub open spec fn in_bounds(self) -> bool {
        match self {
            MessageView::SetupClient(s) => s.versions.len() <= VARINT_MAX && all_in_bounds(
                s.versions,
            ),
            MessageView::SetupServer(s) => s.version <= VARINT_MAX,
            MessageView::Subscribe { track, name } => track <= VARINT_MAX && name.len()
                <= VARINT_MAX,
            MessageView::SubscribeOk { track } => track <= VARINT_MAX,
            MessageView::Announce { namespace } => namespace.len() <= VARINT_MAX,
            MessageView::GoAway { url } => url.len() <= VARINT_MAX,
        }
    }
}

/// Decoding the fields of a client's offer, which start at position 1.
pub open spec fn setup_client_at(b: Seq<u8>) -> Outcome<MessageView> {
    match list_at(b, 1) {
        Outcome::Decoded { value: versions, consumed: n } => match role_at(b, 1 + n as int) {
            Outcome::Decoded { value: role, consumed: m } => Outcome::Decoded {
                value: MessageView::SetupClient(SetupClientView { versions, role }),
                consumed: 1 + n + m,
            },
            other => other.stop(),
        },
        other => other.stop(),
    }
}

/// Decoding the fields of a server's answer, which start at position 1.
pub open spec fn setup_server_at(b: Seq<u8>) -> Outcome<MessageView> {
    match varint_at(b, 1) {
        Outcome::Decoded { value: version, consumed: n } => match role_at(b, 1 + n as int) {
            Outcome::Decoded { value: role, consumed: m } => Outcome::Decoded {
                value: MessageView::SetupServer(SetupServer { version, role }),
                consumed: 1 + n + m,
            },
            other => other.stop(),
        },
        other => other.stop(),
    }
}

/// Decoding the fields of a subscription, which start at position 1.
pub open spec fn subscribe_at(b: Seq<u8>) -> Outcome<MessageView> {
    match varint_at(b, 1) {
        Outcome::Decoded { value: track, consumed: n } => match blob_at(b, 1 + n as int) {
            Outcome::Decoded { value: name, consumed: m } => Outcome::Decoded {
                value: MessageView::Subscribe { track, name },
                consumed: 1 + n + m,
            },
            other => other.stop(),
        },
        other => other.stop(),
    }
}

/// Decoding the field of a granted subscription, which starts at position 1.
pub open spec fn subscribe_ok_at(b: Seq<u8>) -> Outcome<MessageView> {
    match varint_at(b, 1) {
        Outcome::Decoded { value: track, consumed: n } => Outcome::Decoded {
            value: MessageView::SubscribeOk { track },
            consumed: 1 + n,
        },
        other => other.stop(),
    }
}

/// Decoding the field of an announcement, which starts at position 1.
pub open spec fn announce_at(b: Seq<u8>) -> Outcome<MessageView> {
    match blob_at(b, 1) {
        Outcome::Decoded { value: namespace, consumed: n } => Outcome::Decoded {
            value: MessageView::Announce { namespace },
            consumed: 1 + n,
        },
        other => other.stop(),
    }
}

/// Decoding the field of a request to move, which starts at position 1.
pub open spec fn go_away_at(b: Seq<u8>) -> Outcome<MessageView> {
    match blob_at(b, 1) {
        Outcome::Decoded { value: url, consumed: n } => Outcome::Decoded {
            value: MessageView::GoAway { url },
            consumed: 1 + n,
        },
        other => other.stop(),
    }
}

/// A role is settled as soon as its byte is there; a missing one can follow.
pub proof fn lemma_role_at(b: Seq<u8>, pos: int, rest: Seq<u8>)
    requires
        0 <= pos,
    ensures
        !(role_at(b, pos) is NeedMoreData) ==> role_at(b + rest, pos) == role_at(b, pos),
        role_at(b, pos) is NeedMoreData <==> pos >= b.len(),
        pos == b.len() ==> role_at(b + seq![1u8], pos) == (Outcome::Decoded {
            value: Role::Publisher,
            consumed: 1,
        }),
        forall|r: Role|
            pos < b.len() && b[pos] == #[trigger] r.spec_byte() ==> role_at(b, pos) == (
            Outcome::Decoded { value: r, consumed: 1 }),
{
    if pos < b.len() {
        assert((b + rest)[pos] == b[pos]);
    }
    if pos == b.len() {
        assert((b + seq![1u8])[pos] == 1u8);
    }
}

proof fn lemma_setup_client_settled(b: Seq<u8>, rest: Seq<u8>)
    requires
        !(setup_client_at(b) is NeedMoreData),
    ensures
        setup_client_at(b + rest) == setup_client_at(b),
        setup_client_at(b) matches Outcome::Decoded { value, consumed } ==> 1 <= consumed
            <= b.len() && value.in_bounds() && value.tag() == TAG_SETUP_CLIENT,
{
    lemma_list_bounds(b, 1);
    if let Outcome::Decoded { value, consumed } = list_at(b, 1) {
        lemma_list_settled(b, 1, rest);
        lemma_role_at(b, 1 + consumed as int, rest);
    }
}

proof fn lemma_setup_server_settled(b: Seq<u8>, rest: Seq<u8>)
    requires
        !(setup_server_at(b) is NeedMoreData),
    ensures
        setup_server_at(b + rest) == setup_server_at(b),
        setup_server_at(b) matches Outcome::Decoded { value, consumed } ==> 1 <= consumed
            <= b.len() && value.in_bounds() && value.tag() == TAG_SETUP_SERVER,
{
    lemma_varint_bounds(b, 1);
    if let Outcome::Decoded { value, consumed } = varint_at(b, 1) {
        lemma_varint_settled(b, 1, rest);
        lemma_role_at(b, 1 + consumed as int, rest);
    }
}

proof fn lemma_subscribe_settled(b: Seq<u8>, rest: Seq<u8>)
    requires
        !(subscribe_at(b) is NeedMoreData),
    ensures
        subscribe_at(b + rest) == subscribe_at(b),
        subscribe_at(b) matches Outcome::Decoded { value, consumed } ==> 1 <= consumed <= b.len()
            && value.in_bounds() && value.tag() == TAG_SUBSCRIBE,
{
    lemma_varint_bounds(b, 1);
    if let Outcome::Decoded { value, consumed } = varint_at(b, 1) {
        lemma_varint_settled(b, 1, rest);
        lemma_blob_bounds(b, 1 + consumed as int);
        lemma_blob_settled(b, 1 + consumed as int, rest);
    }
}

proof fn lemma_single_field_settled(b: Seq<u8>, rest: Seq<u8>)
    ensures
        !(subscribe_ok_at(b) is NeedMoreData) ==> subscribe_ok_at(b + rest) == subscribe_ok_at(b),
        subscribe_ok_at(b) matches Outcome::Decoded { value, consumed } ==> 1 <= consumed
            <= b.len() && value.in_bounds() && value.tag() == TAG_SUBSCRIBE_OK,
        !(announce_at(b) is NeedMoreData) ==> announce_at(b + rest) == announce_at(b),
        announce_at(b) matches Outcome::Decoded { value, consumed } ==> 1 <= consumed <= b.len()
            && value.in_bounds() && value.tag() == TAG_ANNOUNCE,
        !(go_away_at(b) is NeedMoreData) ==> go_away_at(b + rest) == go_away_at(b),
        go_away_at(b) matches Outcome::Decoded { value, consumed } ==> 1 <= consumed <= b.len()
            && value.in_bounds() && value.tag() == TAG_GO_AWAY,
{
    lemma_varint_bounds(b, 1);
    lemma_blob_bounds(b, 1);
    if !(varint_at(b, 1) is NeedMoreData) {
        lemma_varint_settled(b, 1, rest);
    }
    if !(blob_at(b, 1) is NeedMoreData) {
        lemma_blob_settled(b, 1, rest);
    }
}

/// The fields of an encoded frame decode to the frame.
proof fn lemma_body_round_trip(v: MessageView, b: Seq<u8>)
    requires
        v.in_bounds(),
        holds_at_body(b, v),
    ensures
        v is SetupClient ==> setup_client_at(b) == decoded_whole(v),
        v is SetupServer ==> setup_server_at(b) == decoded_whole(v),
        v is Subscribe ==> subscribe_at(b) == decoded_whole(v),
        v is SubscribeOk ==> subscribe_ok_at(b) == decoded_whole(v),
        v is Announce ==> announce_at(b) == decoded_whole(v),
        v is GoAway ==> go_away_at(b) == decoded_whole(v),
{
    match v {
        MessageView::SetupClient(s) => {
            let e1 = list_bytes(s.versions);
            let e2 = seq![s.role.spec_byte()];
            lemma_holds_at_split(b, 1, e1, e2);
            lemma_list_round_trip(b, 1, s.versions);
            assert(b.subrange(1 + e1.len() as int, 1 + e1.len() as int + 1)[0] == e2[0]);
            lemma_role_at(b, 1 + e1.len() as int, Seq::empty());
        },
        MessageView::SetupServer(s) => {
            let e1 = varint_bytes(s.version);
            let e2 = seq![s.role.spec_byte()];
            lemma_holds_at_split(b, 1, e1, e2);
            lemma_varint_round_trip(b, 1, s.version);
            assert(b.subrange(1 + e1.len() as int, 1 + e1.len() as int + 1)[0] == e2[0]);
            lemma_role_at(b, 1 + e1.len() as int, Seq::empty());
        },
        MessageView::Subscribe { track, name } => {
            let e1 = varint_bytes(track);
            lemma_holds_at_split(b, 1, e1, blob_bytes(name));
            lemma_varint_round_trip(b, 1, track);
            lemma_blob_round_trip(b, 1 + e1.len() as int, name);
        },
        MessageView::SubscribeOk { track } => {
            lemma_varint_round_trip(b, 1, track);
        },
        MessageView::Announce { namespace } => {
            lemma_blob_round_trip(b, 1, namespace);
        },
        MessageView::GoAway { url } => {
            lemma_blob_round_trip(b, 1, url);
        },
    }
}

/// `b` holds the fields of `v` from position 1 on.
pub open spec fn holds_at_body(b: Seq<u8>, v: MessageView) -> bool {
    holds_at(b, 1, v.body())
}

/// The outcome of decoding the whole encoding of `v`.
pub open spec fn decoded_whole(v: MessageView) -> Outcome<MessageView> {
    Outcome::Decoded { value: v, consumed: 1 + v.body().len() }
}

proof fn lemma_setup_client_completes(b: Seq<u8>) -> (ext: Seq<u8>)
    requires
        b.len() >= 1,
        setup_client_at(b) is NeedMoreData,
    ensures
        setup_client_at(b + ext) is Decoded,
{
    lemma_list_bounds(b, 1);
    let one = seq![1u8];
    if let Outcome::Decoded { value, consumed } = list_at(b, 1) {
        lemma_list_settled(b, 1, one);
        lemma_role_at(b, 1 + consumed as int, one);
        one
    } else {
        let first = lemma_list_completes(b, 1);
        let b1 = b + first;
        lemma_list_settled(b1, 1, one);
        lemma_role_at(b1, b1.len() as int, one);
        assert(b + (first + one) =~= b1 + one);
        first + one
    }
}

proof fn lemma_setup_server_completes(b: Seq<u8>) -> (ext: Seq<u8>)
    requires
        b.len() >= 1,
        setup_server_at(b) is NeedMoreData,
    ensures
        setup_server_at(b + ext) is Decoded,
{
    lemma_varint_bounds(b, 1);
    let one = seq![1u8];
    if let Outcome::Decoded { value, consumed } = varint_at(b, 1) {
        lemma_varint_settled(b, 1, one);
        lemma_role_at(b, 1 + consumed as int, one);
        one
    } else {
        let k = lemma_varint_completes(b, 1);
        let b1 = b + zeros(k);
        lemma_varint_settled(b1, 1, one);
        lemma_role_at(b1, b1.len() as int, one);
        assert(b + (zeros(k) + one) =~= b1 + one);
        zeros(k) + one
    }
}

proof fn lemma_subscribe_completes(b: Seq<u8>) -> (ext: Seq<u8>)
    requires
        b.len() >= 1,
        subscribe_at(b) is NeedMoreData,
    ensures
        subscribe_at(b + ext) is Decoded,
{
    lemma_varint_bounds(b, 1);
    if let Outcome::Decoded { value, consumed } = varint_at(b, 1) {
        lemma_blob_bounds(b, 1 + consumed as int);
        let ext = lemma_blob_completes(b, 1 + consumed as int);
        lemma_varint_settled(b, 1, ext);
        ext
    } else {
        let k = lemma_varint_completes(b, 1);
        let b1 = b + zeros(k);
        lemma_blob_bounds(b1, b1.len() as int);
        let more = lemma_blob_completes(b1, b1.len() as int);
        lemma_varint_settled(b1, 1, more);
        assert(b + (zeros(k) + more) =~= b1 + more);
        zeros(k) + more
    }
}

impl Wire for Message {
    open spec fn encodable(v: MessageView) -> bool {
        v.in_bounds()
    }

    open spec fn wire(v: MessageView) -> Seq<u8> {
        seq![v.tag()] + v.body()
    }

    open spec fn parse(b: Seq<u8>) -> Outcome<MessageView> {
        if b.len() == 0 {
            Outcome::NeedMoreData
        } else if b[0] == TAG_SETUP_CLIENT {
            setup_client_at(b)
        } else if b[0] == TAG_SETUP_SERVER {
            setup_server_at(b)
        } else if b[0] == TAG_SUBSCRIBE {
            subscribe_at(b)
        } else if b[0] == TAG_SUBSCRIBE_OK {
            subscribe_ok_at(b)
        } else if b[0] == TAG_ANNOUNCE {
            announce_at(b)
        } else if b[0] == TAG_GO_AWAY {
            go_away_at(b)
        } else {
            Outcome::Malformed
        }
    }

    proof fn lemma_round_trip(v: MessageView, rest: Seq<u8>) {
        let b = Self::wire(v) + rest;
        assert(b[0] == v.tag());
        assert(b.subrange(1, 1 + v.body().len() as int) =~= v.body());
        lemma_body_round_trip(v, b);
    }

    proof fn lemma_settled(b: Seq<u8>, rest: Seq<u8>) {
        assert((b + rest)[0] == b[0]);
        if b[0] == TAG_SETUP_CLIENT {
            lemma_setup_client_settled(b, rest);
        } else if b[0] == TAG_SETUP_SERVER {
            lemma_setup_server_settled(b, rest);
        } else if b[0] == TAG_SUBSCRIBE {
            lemma_subscribe_settled(b, rest);
        } else {
            lemma_single_field_settled(b, rest);
        }
    }

    proof fn lemma_completes(b: Seq<u8>) -> (ext: Seq<u8>) {
        if b.len() == 0 {
            let v = MessageView::SubscribeOk { track: 0 };
            Self::lemma_round_trip(v, Seq::empty());
            assert(b + (Self::wire(v) + Seq::<u8>::empty()) =~= Self::wire(v) + Seq::<u8>::empty());
            Self::wire(v) + Seq::<u8>::empty()
        } else {
            let ext = if b[0] == TAG_SETUP_CLIENT {
                lemma_setup_client_completes(b)
            } else if b[0] == TAG_SETUP_SERVER {
                lemma_setup_server_completes(b)
            } else if b[0] == TAG_SUBSCRIBE {
                lemma_subscribe_completes(b)
            } else if b[0] == TAG_SUBSCRIBE_OK {
                lemma_varint_bounds(b, 1);
                let k = lemma_varint_completes(b, 1);
                zeros(k)
            } else {
                lemma_blob_bounds(b, 1);
                lemma_blob_completes(b, 1)
            };
            assert((b + ext)[0] == b[0]);
            ext
        }
    }

    fn encode(&self, buf: &mut BytesMut) -> (r: Result<(), EncodeError>) {
        if !self.is_encodable() {
            return Err(EncodeError::BoundsExceeded);
        }
        if self.put(buf) {
            Ok(())
        } else {
            Err(EncodeError::TooLarge)
        }
    }

    fn decode(b: &[u8]) -> (r: DecodeOutcome<Message>) {
        let total: usize = b.len();
        if total == 0 {
            return DecodeOutcome::NeedMoreData;
        }
        let tag: u8 = b[0];
        if tag == TAG_SETUP_CLIENT {
            let first = decode_list(b, 1);
            proof {
                lemma_list_bounds(b@, 1);
            }
            match first {
                DecodeOutcome::Decoded { value: versions, consumed: n } => {
                    match decode_role(b, 1 + n) {
                        DecodeOutcome::Decoded { value: role, consumed: m } => {
                            DecodeOutcome::Decoded {
                                value: Message::SetupClient(SetupClient { versions, role }),
                                consumed: 1 + n + m,
                            }
                        },
                        DecodeOutcome::NeedMoreData => DecodeOutcome::NeedMoreData,
                        DecodeOutcome::Malformed => DecodeOutcome::Malformed,
                    }
                },
                DecodeOutcome::NeedMoreData => DecodeOutcome::NeedMoreData,
                DecodeOutcome::Malformed => DecodeOutcome::Malformed,
            }
        } else if tag == TAG_SETUP_SERVER {
            let first = decode_varint(b, 1);
            proof {
                lemma_varint_bounds(b@, 1);
            }
            match first {
                DecodeOutcome::Decoded { value: version, consumed: n } => {
                    match decode_role(b, 1 + n) {
                        DecodeOutcome::Decoded { value: role, consumed: m } => {
                            DecodeOutcome::Decoded {
                                value: Message::SetupServer(SetupServer { version, role }),
                                consumed: 1 + n + m,
                            }
                        },
                        DecodeOutcome::NeedMoreData => DecodeOutcome::NeedMoreData,
                        DecodeOutcome::Malformed => DecodeOutcome::Malformed,
                    }
                },
                DecodeOutcome::NeedMoreData => DecodeOutcome::NeedMoreData,
                DecodeOutcome::Malformed => DecodeOutcome::Malformed,
            }
        } else if tag == TAG_SUBSCRIBE {
            let first = decode_varint(b, 1);
            proof {
                lemma_varint_bounds(b@, 1);
            }
            match first {
                DecodeOutcome::Decoded { value: track, consumed: n } => {
                    let second = decode_blob(b, 1 + n);
                    proof {
                        lemma_blob_bounds(b@, 1 + n);
                    }
                    match second {
                        DecodeOutcome::Decoded { value: name, consumed: m } => {
                            DecodeOutcome::Decoded {
                                value: Message::Subscribe { track, name },
                                consumed: 1 + n + m,
                            }
                        },
                        DecodeOutcome::NeedMoreData => DecodeOutcome::NeedMoreData,
                        DecodeOutcome::Malformed => DecodeOutcome::Malformed,
                    }
                },
                DecodeOutcome::NeedMoreData => DecodeOutcome::NeedMoreData,
                DecodeOutcome::Malformed => DecodeOutcome::Malformed,
            }
        } else if tag == TAG_SUBSCRIBE_OK {
            let first = decode_varint(b, 1);
            proof {
                lemma_varint_bounds(b@, 1);
            }
            match first {
                DecodeOutcome::Decoded { value: track, consumed: n } => DecodeOutcome::Decoded {
                    value: Message::SubscribeOk { track },
                    consumed: 1 + n,
                },
                DecodeOutcome::NeedMoreData => DecodeOutcome::NeedMoreData,
                DecodeOutcome::Malformed => DecodeOutcome::Malformed,
            }
        } else if tag == TAG_ANNOUNCE || tag == TAG_GO_AWAY {
            let first = decode_blob(b, 1);
            proof {
                lemma_blob_bounds(b@, 1);
            }
            match first {
                DecodeOutcome::Decoded { value, consumed: n } => DecodeOutcome::Decoded {
                    value: if tag == TAG_ANNOUNCE {
                        Message::Announce { namespace: value }
                    } else {
                        Message::GoAway { url: value }
                    },
                    consumed: 1 + n,
                },
                DecodeOutcome::NeedMoreData => DecodeOutcome::NeedMoreData,
                DecodeOutcome::Malformed => DecodeOutcome::Malformed,
            }
        } else {
            DecodeOutcome::Malformed
        }
    }
}

impl Message {
    /// Whether every number and length of the frame fits a variable-length
    /// integer.
    pub fn is_encodable(&self) -> (ok: bool)
        ensures
            ok == self@.in_bounds(),
    {
        match self {
            Message::SetupClient(s) => s.versions.len() as u64 <= VARINT_MAX && in_bounds(
                s.versions.as_slice(),
            ),
            Message::SetupServer(s) => s.version <= VARINT_MAX,
            Message::Subscribe { track, name } => *track <= VARINT_MAX && name.len() as u64
                <= VARINT_MAX,
            Message::SubscribeOk { track } => *track <= VARINT_MAX,
            Message::Announce { namespace } => namespace.len() as u64 <= VARINT_MAX,
            Message::GoAway { url } => url.len() as u64 <= VARINT_MAX,
        }
    }

    /// Appends the frame to `buf` as far as there is room for it.
    fn put(&self, buf: &mut BytesMut) -> (ok: bool)
        requires
            self@.in_bounds(),
        ensures
            ok <==> contents(*old(buf)).len() + Self::wire(self@).len() <= usize::MAX,
            ok ==> contents(*final(buf)) == contents(*old(buf)) + Self::wire(self@),
            contents(*old(buf)).is_prefix_of(contents(*final(buf))),
    {
        let ghost before = contents(*buf);
        if buf.len() == usize::MAX {
            return false;
        }
        match self {
            Message::SetupClient(s) => {
                put_u8(buf, TAG_SETUP_CLIENT);
                let first = put_list(buf, s.versions.as_slice());
                if first.is_err() || buf.len() == usize::MAX {
                    return false;
                }
                put_u8(buf, s.role.byte());
            },
            Message::SetupServer(s) => {
                put_u8(buf, TAG_SETUP_SERVER);
                let first = put_varint(buf, s.version);
                if first.is_err() || buf.len() == usize::MAX {
                    return false;
                }
                put_u8(buf, s.role.byte());
            },
            Message::Subscribe { track, name } => {
                put_u8(buf, TAG_SUBSCRIBE);
                let first = put_varint(buf, *track);
                if first.is_err() {
                    return false;
                }
                let second = put_blob(buf, name.as_slice());
                if second.is_err() {
                    return false;
                }
            },
            Message::SubscribeOk { track } => {
                put_u8(buf, TAG_SUBSCRIBE_OK);
                let first = put_varint(buf, *track);
                if first.is_err() {
                    return false;
                }
            },
            Message::Announce { namespace } => {
                put_u8(buf, TAG_ANNOUNCE);
                let first = put_blob(buf, namespace.as_slice());
                if first.is_err() {
                    return false;
                }
            },
            Message::GoAway { url } => {
                put_u8(buf, TAG_GO_AWAY);
                let first = put_blob(buf, url.as_slice());
                if first.is_err() {
                    return false;
                }
            },
        }
        assert(contents(*buf) =~= before + Self::wire(self@));
        true
    }
}

} // verus!
