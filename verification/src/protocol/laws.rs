//! What is written is read back: the laws of the signals and of the frames
//! that carry them.

use crate::io::bits::flag_byte;
use crate::io::reader::ReaderView;
use crate::io::writer::WriterView;
use crate::protocol::handler::Signal;
use crate::protocol::ll::package::{parse_frame, FrameOutcome};
use crate::protocol::ll::ping::Ping;
use crate::protocol::pk::cube_dict::{
    defs_bytes, parse_def, parse_defs, CubeDefView, CubeDictView, PK_LOAD_CUBE_DICT,
};
use crate::protocol::pk::parse_pk;
use crate::protocol::pk::spawn::{SpawnSignal, PK_SPAWN_SPAWN};
use crate::util::IoErrorKind;
use vstd::prelude::*;

verus! {

/// A ping survives writing and reading.
pub proof fn lemma_ping_round_trip(ping: Ping, tail: Seq<u8>)
    ensures
        crate::protocol::ll::parse_ll(ReaderView::over(ping.wire() + tail))
            == crate::protocol::ll::one_signal(Signal::Ping(ping), ReaderView::over(tail)),
{
    let body = crate::io::endian::be_bytes(ping.last_cycle as nat, 8);
    let all = ping.wire() + tail;
    crate::io::laws::lemma_uint64_round_trip(ping.last_cycle);
    assert(all.take(1) =~= seq![crate::protocol::ll::ping::LL_PING]);
    assert(all.skip(1) =~= body + tail);
    crate::io::laws::lemma_bytes_round_trip(body, tail);
}

/// A request to log in survives writing and reading, where each of its
/// strings fits behind its length prefix and the user's identifier has its
/// twenty bytes.
pub proof fn lemma_login_request_round_trip(
    request: crate::protocol::ll::login_request::LoginRequestView,
    tail: Seq<u8>,
)
    requires
        request.fits(),
        request.user_id.len() == 20,
    ensures
        crate::protocol::ll::parse_ll(ReaderView::over(request.wire() + tail))
            == crate::protocol::ll::one_signal(
            Signal::LoginRequest(request),
            ReaderView::over(tail),
        ),
{
    let major = crate::io::endian::be_bytes(request.major_protocol as nat, 4);
    let minor = crate::io::endian::be_bytes(request.minor_protocol as nat, 4);
    let name = crate::io::writer::string_bytes(request.username);
    let language = crate::io::writer::string_bytes(request.language);
    let sys_info = crate::io::writer::string_bytes(request.sys_info);
    let all = request.wire() + tail;
    let after_id = major + minor + (name + (request.user_id + (language + (sys_info + tail))));
    assert(all.take(1) =~= seq![crate::protocol::ll::login_request::LL_LOGIN_REQUEST]);
    assert(all.skip(1) =~= after_id);
    crate::io::laws::lemma_uint32_round_trip(request.major_protocol);
    crate::io::laws::lemma_uint32_round_trip(request.minor_protocol);
    let versions = major + minor;
    crate::io::laws::lemma_bytes_round_trip(
        versions,
        name + (request.user_id + (language + (sys_info + tail))),
    );
    assert(versions.subrange(0, 4) =~= major);
    assert(versions.subrange(4, 8) =~= minor);
    crate::io::laws::lemma_string_round_trip(
        request.username,
        request.user_id + (language + (sys_info + tail)),
    );
    crate::io::laws::lemma_bytes_round_trip(request.user_id, language + (sys_info + tail));
    crate::io::laws::lemma_string_round_trip(request.language, sys_info + tail);
    crate::io::laws::lemma_string_round_trip(request.sys_info, tail);
}

/// A server's disconnect survives writing and reading, its flag too, where
/// the reason fits behind its length prefix; and the reader ends at a byte
/// boundary behind it.
pub proof fn lemma_server_disconnect_round_trip(
    signal: crate::protocol::ll::disconnect::ServerDisconnectView,
    tail: Seq<u8>,
)
    requires
        signal.fits(),
    ensures
        crate::protocol::ll::parse_ll(ReaderView::over(signal.wire() + tail))
            == crate::protocol::ll::one_signal(
            Signal::ServerDisconnect(signal),
            ReaderView::over(tail),
        ),
{
    let reason = crate::io::writer::string_bytes(signal.reason);
    let flag = seq![flag_byte(signal.rejoin)];
    let all = signal.wire() + tail;
    assert(all.take(1) =~= seq![crate::protocol::ll::disconnect::LL_SERVER_DISCONNECT]);
    assert(all.skip(1) =~= reason + (flag + tail));
    crate::io::laws::lemma_string_round_trip(signal.reason, flag + tail);
    crate::io::laws::lemma_flag_read(signal.rejoin, tail);
}

/// A spawn survives writing and reading.
pub proof fn lemma_spawn_round_trip(spawn: SpawnSignal, tail: Seq<u8>)
    ensures
        parse_pk(ReaderView::over(spawn.wire() + tail)) == Ok::<(Signal, ReaderView), IoErrorKind>(
            (Signal::Spawn(spawn), ReaderView::over(tail)),
        ),
{
    reveal(parse_pk);
    let id = crate::io::endian::be_bytes(PK_SPAWN_SPAWN as nat, 2);
    let body = crate::io::writer::flex_pos_bytes(spawn.pos);
    let all = spawn.wire() + tail;
    crate::io::endian::lemma_be_limits();
    crate::io::endian::lemma_be_round_trip(PK_SPAWN_SPAWN as nat, 2);
    assert(all.take(2) =~= id);
    assert(all.skip(2) =~= body + tail);
    crate::io::laws::lemma_flex_pos_round_trip(spawn.pos, tail);
}

/// The entries of a dictionary, written one after the other, are the first
/// of them and then the others.
pub proof fn lemma_defs_bytes_front(defs: Seq<CubeDefView>)
    requires
        defs.len() > 0,
    ensures
        defs_bytes(defs) == crate::io::endian::be_bytes(defs[0].id as nat, 4)
            + crate::io::writer::string_bytes(defs[0].name) + defs_bytes(defs.drop_first()),
    decreases defs.len(),
{
    if defs.len() == 1 {
        assert(defs.drop_last() =~= Seq::<CubeDefView>::empty());
        assert(defs.drop_first() =~= Seq::<CubeDefView>::empty());
        assert(defs_bytes(defs) =~= crate::io::endian::be_bytes(defs[0].id as nat, 4)
            + crate::io::writer::string_bytes(defs[0].name) + defs_bytes(defs.drop_first()));
    } else {
        lemma_defs_bytes_front(defs.drop_last());
        assert(defs.drop_last().drop_first() =~= defs.drop_first().drop_last());
        assert(defs.drop_last()[0] == defs[0]);
        assert(defs.drop_first().last() == defs.last());
        assert(defs_bytes(defs) =~= crate::io::endian::be_bytes(defs[0].id as nat, 4)
            + crate::io::writer::string_bytes(defs[0].name) + defs_bytes(defs.drop_first()));
    }
}

/// The entries of a dictionary survive writing and reading, where each name
/// fits behind its length prefix.
pub proof fn lemma_defs_round_trip(defs: Seq<CubeDefView>, tail: Seq<u8>)
    requires
        forall|i: int|
            0 <= i < defs.len() ==> vstd::utf8::encode_utf8(#[trigger] defs[i].name).len()
                <= crate::io::writer::STRING_MAX,
    ensures
        parse_defs(ReaderView::over(defs_bytes(defs) + tail), defs.len()) == Ok::<
            (Seq<CubeDefView>, ReaderView),
            IoErrorKind,
        >((defs, ReaderView::over(tail))),
    decreases defs.len(),
{
    if defs.len() == 0 {
        assert(defs_bytes(defs) + tail =~= tail);
        assert(defs =~= Seq::empty());
    } else {
        let first = defs[0];
        let others = defs.drop_first();
        let id = crate::io::endian::be_bytes(first.id as nat, 4);
        let name = crate::io::writer::string_bytes(first.name);
        let rest = defs_bytes(others) + tail;
        lemma_defs_bytes_front(defs);
        let all = defs_bytes(defs) + tail;
        assert(all =~= id + (name + rest));
        crate::io::laws::lemma_uint32_round_trip(first.id);
        crate::io::laws::lemma_bytes_round_trip(id, name + rest);
        crate::io::laws::lemma_string_round_trip(first.name, rest);
        assert(parse_def(ReaderView::over(all)) == Ok::<(CubeDefView, ReaderView), IoErrorKind>(
            (first, ReaderView::over(rest)),
        ));
        assert forall|i: int| 0 <= i < others.len() implies vstd::utf8::encode_utf8(
            #[trigger] others[i].name,
        ).len() <= crate::io::writer::STRING_MAX by {
            assert(others[i] == defs[i + 1]);
        }
        lemma_defs_round_trip(others, tail);
        assert(seq![first] + others =~= defs);
    }
}

/// A dictionary survives writing and reading, where it says how many
/// entries it has and each name fits behind its length prefix.
pub proof fn lemma_cube_dict_round_trip(dict: CubeDictView, tail: Seq<u8>)
    requires
        dict.size == dict.defs.len(),
        dict.fits(),
    ensures
        parse_pk(ReaderView::over(dict.wire() + tail)) == Ok::<(Signal, ReaderView), IoErrorKind>(
            (Signal::CubeDict(dict), ReaderView::over(tail)),
        ),
{
    reveal(parse_pk);
    let id = crate::io::endian::be_bytes(PK_LOAD_CUBE_DICT as nat, 2);
    let size = crate::io::endian::be_bytes(dict.size as nat, 4);
    let body = defs_bytes(dict.defs);
    let all = dict.wire() + tail;
    assert(dict.defs.take(dict.size as int) =~= dict.defs);
    crate::io::endian::lemma_be_limits();
    crate::io::endian::lemma_be_round_trip(PK_LOAD_CUBE_DICT as nat, 2);
    crate::io::endian::lemma_be_round_trip(dict.size as nat, 4);
    assert(all.take(2) =~= id);
    assert(all.skip(2) =~= size + (body + tail));
    crate::io::laws::lemma_bytes_round_trip(size, body + tail);
    lemma_defs_round_trip(dict.defs, tail);
}

/// A packed signal that a package can carry.
pub enum Packed {
    Spawn(SpawnSignal),
    CubeDict(CubeDictView),
}

impl Packed {
    /// What the signal is on the wire, identifier first.
    pub open spec fn wire(self) -> Seq<u8> {
        match self {
            Packed::Spawn(spawn) => spawn.wire(),
            Packed::CubeDict(dict) => dict.wire(),
        }
    }

    /// The signal as it is handed over.
    pub open spec fn signal(self) -> Signal {
        match self {
            Packed::Spawn(spawn) => Signal::Spawn(spawn),
            Packed::CubeDict(dict) => Signal::CubeDict(dict),
        }
    }

    /// Whether the signal can be written: a dictionary says how many
    /// entries it has, and each name fits behind its length prefix.
    pub open spec fn sound(self) -> bool {
        match self {
            Packed::Spawn(_) => true,
            Packed::CubeDict(dict) => dict.size == dict.defs.len() && dict.fits(),
        }
    }
}

/// The inside of the package that carries `signals`: each signal behind a
/// byte whose first bit is set, and after them a byte whose first bit is
/// clear.
pub open spec fn frame_wire(signals: Seq<Packed>) -> Seq<u8>
    decreases signals.len(),
{
    if signals.len() == 0 {
        seq![flag_byte(false)]
    } else {
        seq![flag_byte(true)] + signals[0].wire() + frame_wire(signals.drop_first())
    }
}

/// What the writer of a package has collected after `signals`, before the
/// end mark.
pub open spec fn collected(view: WriterView, signals: Seq<Packed>) -> WriterView
    decreases signals.len(),
{
    if signals.len() == 0 {
        view
    } else {
        collected(view, signals.drop_last()).push_bit(true).pad().push_bytes(signals.last().wire())
    }
}

/// A packed signal survives writing and reading.
pub proof fn lemma_packed_round_trip(packed: Packed, tail: Seq<u8>)
    requires
        packed.sound(),
    ensures
        parse_pk(ReaderView::over(packed.wire() + tail)) == Ok::<(Signal, ReaderView), IoErrorKind>(
            (packed.signal(), ReaderView::over(tail)),
        ),
{
    match packed {
        Packed::Spawn(spawn) => lemma_spawn_round_trip(spawn, tail),
        Packed::CubeDict(dict) => lemma_cube_dict_round_trip(dict, tail),
    }
}

/// The end mark ends the reading, and what stands behind it is not touched.
pub proof fn lemma_frame_end(tail: Seq<u8>)
    ensures
        parse_frame(ReaderView::over(seq![flag_byte(false)] + tail)) == (FrameOutcome {
            signals: Seq::empty(),
            end: Ok(ReaderView::over(tail)),
        }),
{
    crate::io::bits::lemma_flag_byte(false);
    assert((seq![flag_byte(false)] + tail).drop_first() =~= tail);
}

/// A signal behind its mark is read, and the reading goes on behind it.
pub proof fn lemma_frame_step(first: Packed, rest: Seq<u8>)
    requires
        first.sound(),
    ensures
        parse_frame(ReaderView::over(seq![flag_byte(true)] + first.wire() + rest))
            == (FrameOutcome {
            signals: seq![first.signal()] + parse_frame(ReaderView::over(rest)).signals,
            end: parse_frame(ReaderView::over(rest)).end,
        }),
{
    let all = seq![flag_byte(true)] + first.wire() + rest;
    crate::io::bits::lemma_flag_byte(true);
    assert(all.drop_first() =~= first.wire() + rest);
    lemma_packed_round_trip(first, rest);
    assert(rest.len() < all.len());
}

/// The inside of a package is read back as its signals, in their order, and
/// the reading stops at the end mark: what stands behind it is not touched.
pub proof fn lemma_frame_round_trip(signals: Seq<Packed>, tail: Seq<u8>)
    requires
        forall|i: int| 0 <= i < signals.len() ==> (#[trigger] signals[i]).sound(),
    ensures
        parse_frame(ReaderView::over(frame_wire(signals) + tail)) == (FrameOutcome {
            signals: signals.map_values(|packed: Packed| packed.signal()),
            end: Ok(ReaderView::over(tail)),
        }),
    decreases signals.len(),
{
    let wanted = signals.map_values(|packed: Packed| packed.signal());
    if signals.len() == 0 {
        lemma_frame_end(tail);
        assert(wanted =~= Seq::empty());
    } else {
        let first = signals[0];
        let others = signals.drop_first();
        let rest = frame_wire(others) + tail;
        assert forall|i: int| 0 <= i < others.len() implies (#[trigger] others[i]).sound() by {
            assert(others[i] == signals[i + 1]);
        }
        lemma_frame_round_trip(others, tail);
        lemma_frame_step(first, rest);
        assert(frame_wire(signals) + tail =~= seq![flag_byte(true)] + first.wire() + rest);
        assert(seq![first.signal()] + others.map_values(|packed: Packed| packed.signal())
            =~= wanted);
    }
}

/// What the writer of a package collects, ended by the end mark, is the
/// inside of the package that carries the signals.
pub proof fn lemma_collected_is_frame(signals: Seq<Packed>)
    ensures
        collected(
            WriterView { bytes: Seq::empty(), pending: Seq::empty() },
            signals,
        ).push_bit(false).pad() == (WriterView {
            bytes: frame_wire(signals),
            pending: Seq::empty(),
        }),
{
    let start = WriterView { bytes: Seq::<u8>::empty(), pending: Seq::<bool>::empty() };
    lemma_collected_bytes(signals);
    let view = collected(start, signals);
    crate::io::laws::lemma_flag_written(view, false);
    lemma_frame_wire_back(signals, Seq::empty());
    assert(unended(signals) + seq![flag_byte(false)] =~= frame_wire(signals)) by {
        assert(frame_wire(Seq::<Packed>::empty()) =~= seq![flag_byte(false)]);
    }
}

/// The signals of a package without the end mark: each behind a byte whose
/// first bit is set.
pub open spec fn unended(signals: Seq<Packed>) -> Seq<u8>
    decreases signals.len(),
{
    if signals.len() == 0 {
        Seq::empty()
    } else {
        unended(signals.drop_last()) + seq![flag_byte(true)] + signals.last().wire()
    }
}

/// What the writer of a package collects is each signal behind its mark.
pub proof fn lemma_collected_bytes(signals: Seq<Packed>)
    ensures
        collected(WriterView { bytes: Seq::empty(), pending: Seq::empty() }, signals)
            == (WriterView { bytes: unended(signals), pending: Seq::empty() }),
    decreases signals.len(),
{
    let start = WriterView { bytes: Seq::<u8>::empty(), pending: Seq::<bool>::empty() };
    if signals.len() > 0 {
        lemma_collected_bytes(signals.drop_last());
        let before = collected(start, signals.drop_last());
        crate::io::laws::lemma_flag_written(before, true);
        assert(before.bytes + seq![flag_byte(true)] + signals.last().wire() =~= unended(signals));
    }
}

/// Signals behind their marks, and then a package: the package of them all.
pub proof fn lemma_frame_wire_back(signals: Seq<Packed>, more: Seq<Packed>)
    ensures
        unended(signals) + frame_wire(more) == frame_wire(signals + more),
    decreases signals.len(),
{
    if signals.len() == 0 {
        assert(signals + more =~= more);
        assert(unended(signals) + frame_wire(more) =~= frame_wire(more));
    } else {
        let last = signals.last();
        let joined = seq![last] + more;
        lemma_frame_wire_back(signals.drop_last(), joined);
        assert(joined.drop_first() =~= more);
        assert(signals.drop_last() + joined =~= signals + more);
        assert(unended(signals) + frame_wire(more) =~= unended(signals.drop_last()) + frame_wire(
            joined,
        ));
    }
}

/// A package is read back as its signals, in their order, and the reader
/// then stands behind the package: wherever the encoder gives a stream for
/// the package's inside that is no longer than its length can announce, and
/// decompressing that stream gives the inside back.
pub proof fn lemma_package_round_trip(signals: Seq<Packed>, compressed: Seq<u8>, tail: Seq<u8>)
    requires
        forall|i: int| 0 <= i < signals.len() ==> (#[trigger] signals[i]).sound(),
        crate::protocol::ll::package::deflated(frame_wire(signals)) == Some(compressed),
        compressed.len() <= crate::protocol::ll::package::PACKAGE_MAX,
        crate::protocol::ll::package::inflated(compressed) == Some(frame_wire(signals)),
    ensures
        crate::protocol::ll::parse_ll(
            ReaderView::over(crate::protocol::ll::package::package_wire(compressed) + tail),
        ) == (FrameOutcome {
            signals: signals.map_values(|packed: Packed| packed.signal()),
            end: Ok(ReaderView::over(tail)),
        }),
{
    let length = crate::io::endian::be_bytes(compressed.len(), 4);
    let all = crate::protocol::ll::package::package_wire(compressed) + tail;
    crate::io::endian::lemma_be_limits();
    crate::io::endian::lemma_be_round_trip(compressed.len(), 4);
    assert(all.take(1) =~= seq![crate::protocol::ll::package::LL_PACKAGE]);
    assert(all.skip(1) =~= length + (compressed + tail));
    crate::io::laws::lemma_bytes_round_trip(length, compressed + tail);
    crate::io::laws::lemma_bytes_round_trip(compressed, tail);
    lemma_frame_round_trip(signals, Seq::empty());
    assert(frame_wire(signals) + Seq::<u8>::empty() =~= frame_wire(signals));
}

} // verus!
