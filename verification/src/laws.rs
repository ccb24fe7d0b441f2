//! What holds across the functions of the library.

use http::header::HeaderMap;
use vstd::prelude::*;
use vstd::string::*;
use vstd::utf8::*;

use crate::backend;
use crate::body_limit;
use crate::compression;
use crate::compression::{
    CompressionEncoding, CompressionError, GzipConfig, Level, ZlibConfig, ZstdConfig,
};
use crate::header;
use crate::text;
use crate::thrift;
use crate::thrift::{
    DecodeAction, DecodeEvent, MessageLength, Protocol, ProtocolException, ProtocolExceptionKind,
    ProtocolMarks, ThriftCodec, ThriftException,
};

verus! {

/// Decompression gives back what compression was given: what compressing `data` wrote
/// unpacks to `data` for every encoding of the same kind, with whatever configuration, so
/// that decompressing it writes `data`, and it comes out wherever there is room for `data`.
pub proof fn law_decompress_undoes_compress(
    sender: CompressionEncoding,
    receiver: CompressionEncoding,
    data: Seq<u8>,
    wire_before: Seq<u8>,
    wire_after: Seq<u8>,
)
    requires
        compression::is_configured(sender),
        compression::same_kind(sender, receiver),
        compression::compressed(sender, data, wire_before, wire_after),
    ensures
        compression::unpacked(receiver, backend::added(wire_before, wire_after)) == Some(data),
        forall|before: Seq<u8>, after: Seq<u8>| #[trigger]
            compression::decompressed(
                receiver,
                backend::added(wire_before, wire_after),
                before,
                after,
            ) ==> after == before + data,
        forall|before: Seq<u8>| #[trigger]
            compression::comes_out(
                before,
                compression::unpacked(receiver, backend::added(wire_before, wire_after)),
            ) <==> before.len() + data.len() <= backend::max_held(),
{
    assert forall|before: Seq<u8>, after: Seq<u8>| #[trigger]
        compression::decompressed(
            receiver,
            backend::added(wire_before, wire_after),
            before,
            after,
        ) implies after == before + data by {
        assert(backend::added(before, after) == data);
        assert(after =~= before + data);
    }
}

/// Level 0 stands for the default level of zstd, which is 3: what compressing may yield at
/// the one it may yield at the other. Every other level up to the largest signed number is
/// handed to zstd as it is.
pub proof fn law_level_zero_is_the_default_of_zstd(level: Level, data: Seq<u8>, packed: Seq<u8>)
    ensures
        compression::packs(
            CompressionEncoding::Zstd(Some(ZstdConfig { level: Level { value: 0 } })),
            data,
            packed,
        ) == compression::packs(
            CompressionEncoding::Zstd(Some(ZstdConfig { level: Level { value: 3 } })),
            data,
            packed,
        ),
        0 < level.value <= i32::MAX ==> compression::zstd_level_of(level) == level.value,
{
}

/// The equality of encodings is an equivalence: it goes by their names, and takes no
/// notice of levels.
pub proof fn law_kinds(
    left: CompressionEncoding,
    middle: CompressionEncoding,
    right: CompressionEncoding,
)
    ensures
        compression::same_kind(left, left),
        compression::same_kind(left, middle) == compression::same_kind(middle, left),
        compression::same_kind(left, middle) && compression::same_kind(middle, right)
            ==> compression::same_kind(left, right),
        compression::same_kind(left, right) <==> compression::encoding_name(left)
            == compression::encoding_name(right),
{
    reveal_strlit("gzip");
    reveal_strlit("zlib");
    reveal_strlit("zstd");
    reveal_strlit("identity");
    assert("gzip"@[0] != "zlib"@[0]);
    assert("zlib"@[1] != "zstd"@[1]);
}

/// The first of `available` of a kind is one of them, is of that kind, and is there
/// whenever the kind is.
pub(crate) proof fn lemma_first_of_kind(available: Seq<CompressionEncoding>, kind: CompressionEncoding)
    ensures
        match compression::first_of_kind(available, kind) {
            Some(encoding) => {
                &&& available.contains(encoding)
                &&& compression::same_kind(encoding, kind)
                &&& compression::enabled(kind, available)
            },
            None => !compression::enabled(kind, available),
        },
    decreases available.len(),
{
    if available.len() > 0 {
        let rest = available.drop_first();
        lemma_first_of_kind(rest, kind);
        if compression::same_kind(available[0], kind) {
            assert(available.contains(available[0]));
        } else {
            if compression::enabled(kind, rest) {
                let i = choose|i: int|
                    0 <= i < rest.len() && compression::same_kind(#[trigger] rest[i], kind);
                assert(compression::same_kind(available[i + 1], kind));
            }
            if compression::enabled(kind, available) {
                let i = choose|i: int|
                    0 <= i < available.len() && compression::same_kind(
                        #[trigger] available[i],
                        kind,
                    );
                assert(compression::same_kind(rest[i - 1], kind));
            }
            if compression::first_of_kind(rest, kind) is Some {
                let encoding = compression::first_of_kind(rest, kind)->0;
                let i = choose|i: int| 0 <= i < rest.len() && rest[i] == encoding;
                assert(available[i + 1] == encoding);
            }
        }
    }
}

/// What is picked for a peer is one of the available encodings and compresses, whatever
/// the peer sent.
pub proof fn law_pick_is_available(list: Seq<u8>, available: Seq<CompressionEncoding>)
    ensures
        compression::accepted(list, available) matches Some(encoding) ==> {
            &&& available.contains(encoding)
            &&& !(encoding is Identity)
        },
{
    lemma_choice_is_available(text::split_on(list, 44), available);
}

proof fn lemma_choice_is_available(entries: Seq<Seq<u8>>, available: Seq<CompressionEncoding>)
    ensures
        compression::first_choice(entries, available) matches Some(encoding) ==> {
            &&& available.contains(encoding)
            &&& !(encoding is Identity)
        },
    decreases entries.len(),
{
    if entries.len() > 0 {
        lemma_first_of_kind(available, CompressionEncoding::Gzip(None));
        lemma_first_of_kind(available, CompressionEncoding::Zlib(None));
        lemma_first_of_kind(available, CompressionEncoding::Zstd(None));
        lemma_choice_is_available(entries.drop_first(), available);
    }
}

/// The encoding for a peer that accepts the encodings `peer`, in its order of
/// preference, when `available` are there: the first that compresses and is there.
pub open spec fn negotiated(
    peer: Seq<CompressionEncoding>,
    available: Seq<CompressionEncoding>,
) -> Option<CompressionEncoding>
    decreases peer.len(),
{
    if peer.len() == 0 {
        None
    } else if peer[0] is Identity || !compression::enabled(peer[0], available) {
        negotiated(peer.drop_first(), available)
    } else {
        compression::first_of_kind(available, peer[0])
    }
}

/// The name of an encoding, as an entry of an accept list, leads to the first available
/// encoding of its kind, or nowhere for the identity.
pub(crate) proof fn lemma_own_entry(encoding: CompressionEncoding, available: Seq<CompressionEncoding>)
    ensures
        compression::entry_choice(encode_utf8(compression::encoding_name(encoding)), available)
            == (if encoding is Identity {
            None
        } else {
            compression::first_of_kind(available, encoding)
        }),
{
    let name = compression::encoding_name(encoding);
    let entry = encode_utf8(name);
    compression::lemma_names(encoding);
    assert(97 <= entry[0] <= 122);
    assert(97 <= entry[entry.len() - 1] <= 122);
    assert(text::trimmed(entry) == entry);
    encode_utf8_decode_utf8(name);
    encode_utf8_decode_utf8("gzip"@);
    encode_utf8_decode_utf8("zlib"@);
    encode_utf8_decode_utf8("zstd"@);
    law_kinds(encoding, CompressionEncoding::Gzip(None), CompressionEncoding::Gzip(None));
    law_kinds(encoding, CompressionEncoding::Zlib(None), CompressionEncoding::Zlib(None));
    law_kinds(encoding, CompressionEncoding::Zstd(None), CompressionEncoding::Zstd(None));
    law_kinds(
        CompressionEncoding::Gzip(None),
        CompressionEncoding::Zlib(None),
        CompressionEncoding::Zstd(None),
    );
    law_kinds(
        CompressionEncoding::Zlib(None),
        CompressionEncoding::Zstd(None),
        CompressionEncoding::Zstd(None),
    );
    lemma_first_ignores_level(available, encoding, CompressionEncoding::Gzip(None));
    lemma_first_ignores_level(available, encoding, CompressionEncoding::Zlib(None));
    lemma_first_ignores_level(available, encoding, CompressionEncoding::Zstd(None));
}

proof fn lemma_first_ignores_level(
    available: Seq<CompressionEncoding>,
    left: CompressionEncoding,
    right: CompressionEncoding,
)
    ensures
        compression::same_kind(left, right) ==> compression::first_of_kind(available, left)
            == compression::first_of_kind(available, right),
    decreases available.len(),
{
    if available.len() > 0 {
        lemma_first_ignores_level(available.drop_first(), left, right);
    }
}

proof fn lemma_choice_of_names(
    peer: Seq<CompressionEncoding>,
    available: Seq<CompressionEncoding>,
)
    ensures
        compression::first_choice(compression::name_pieces(peer), available) == negotiated(
            peer,
            available,
        ),
    decreases peer.len(),
{
    if peer.len() > 0 {
        lemma_own_entry(peer[0], available);
        lemma_first_of_kind(available, peer[0]);
        lemma_choice_of_names(peer.drop_first(), available);
        assert(compression::name_pieces(peer).drop_first() =~= compression::name_pieces(
            peer.drop_first(),
        ));
    }
}

/// An accept list that was composed is understood: for a peer that sends its encodings
/// as an accept list, the first that compresses and is available is picked.
pub proof fn law_composed_list_is_understood(
    peer: Seq<CompressionEncoding>,
    available: Seq<CompressionEncoding>,
)
    ensures
        header::all_visible(compression::composed(peer)),
        compression::accepted(compression::composed(peer), available) == negotiated(
            peer,
            available,
        ),
{
    let pieces = compression::name_pieces(peer);
    let list = compression::composed(peer);
    assert forall|i: int| 0 <= i < pieces.len() implies {
        &&& !(#[trigger] pieces[i]).contains(44)
        &&& header::all_visible(pieces[i])
    } by {
        compression::lemma_names(peer[i]);
    }
    lemma_joined_visible(pieces);
    if peer.len() == 0 {
        assert(list =~= Seq::empty());
        assert(text::split_on(list, 44) =~= seq![list]);
        assert("gzip".spec_bytes().len() > 0 && "zlib".spec_bytes().len() > 0
            && "zstd".spec_bytes().len() > 0) by {
            compression::lemma_names(CompressionEncoding::Gzip(None));
            compression::lemma_names(CompressionEncoding::Zlib(None));
            compression::lemma_names(CompressionEncoding::Zstd(None));
        }
        assert(compression::entry_choice(list, available) is None);
        assert(seq![list].drop_first() =~= Seq::empty());
        assert(compression::first_choice(Seq::empty(), available) is None);
    } else {
        text::lemma_split_joined(pieces, 44);
        lemma_choice_of_names(peer, available);
    }
}

proof fn lemma_joined_visible(pieces: Seq<Seq<u8>>)
    requires
        forall|i: int| 0 <= i < pieces.len() ==> header::all_visible(#[trigger] pieces[i]),
    ensures
        header::all_visible(text::joined(pieces, 44)),
    decreases pieces.len(),
{
    if pieces.len() > 1 {
        lemma_joined_visible(pieces.drop_first());
        assert(header::all_visible(pieces[0]));
    } else if pieces.len() == 1 {
        assert(header::all_visible(pieces[0]));
    }
}

/// Peers agree on an encoding exactly when there is one that compresses on both sides,
/// and what they agree on is on both sides.
pub proof fn law_negotiation(
    peer: Seq<CompressionEncoding>,
    available: Seq<CompressionEncoding>,
)
    ensures
        match negotiated(peer, available) {
            Some(encoding) => {
                &&& available.contains(encoding)
                &&& compression::enabled(encoding, peer)
                &&& !(encoding is Identity)
            },
            None => forall|encoding: CompressionEncoding|
                !(encoding is Identity) ==> !(compression::enabled(encoding, peer)
                    && #[trigger] compression::enabled(encoding, available)),
        },
    decreases peer.len(),
{
    if peer.len() > 0 {
        let rest = peer.drop_first();
        law_negotiation(rest, available);
        lemma_first_of_kind(available, peer[0]);
        if peer[0] is Identity || !compression::enabled(peer[0], available) {
            if negotiated(peer, available) is Some {
                let encoding = negotiated(peer, available)->0;
                let i = choose|i: int|
                    0 <= i < rest.len() && compression::same_kind(#[trigger] rest[i], encoding);
                assert(compression::same_kind(peer[i + 1], encoding));
            } else {
                assert forall|encoding: CompressionEncoding|
                    !(encoding is Identity) implies !(compression::enabled(encoding, peer)
                    && #[trigger] compression::enabled(encoding, available)) by {
                    if compression::enabled(encoding, peer) && compression::enabled(
                        encoding,
                        available,
                    ) {
                        let i = choose|i: int|
                            0 <= i < peer.len() && compression::same_kind(
                                #[trigger] peer[i],
                                encoding,
                            );
                        if i == 0 {
                            let j = choose|j: int|
                                0 <= j < available.len() && compression::same_kind(
                                    #[trigger] available[j],
                                    encoding,
                                );
                            assert(compression::same_kind(available[j], peer[0]));
                        } else {
                            assert(compression::same_kind(rest[i - 1], encoding));
                        }
                    }
                }
            }
        } else {
            assert(compression::same_kind(peer[0], compression::first_of_kind(available, peer[0])->0));
        }
    }
}

/// The header value that names an encoding is read back: as the encoding without its
/// configuration where its kind is enabled, and as no compression for the identity.
pub proof fn law_announced_name_is_read_back(
    encoding: CompressionEncoding,
    encodings: Seq<CompressionEncoding>,
)
    requires
        encoding is Identity || compression::enabled(encoding, encodings),
    ensures
        header::all_visible(encode_utf8(compression::encoding_name(encoding))),
        compression::announced(
            decode_utf8(encode_utf8(compression::encoding_name(encoding))),
            encodings,
        ) == Some(
            match encoding {
                CompressionEncoding::Gzip(_) => Some(CompressionEncoding::Gzip(None)),
                CompressionEncoding::Zlib(_) => Some(CompressionEncoding::Zlib(None)),
                CompressionEncoding::Zstd(_) => Some(CompressionEncoding::Zstd(None)),
                CompressionEncoding::Identity => None,
            },
        ),
{
    compression::lemma_names(encoding);
    encode_utf8_decode_utf8(compression::encoding_name(encoding));
    let kind = match encoding {
        CompressionEncoding::Gzip(_) => CompressionEncoding::Gzip(None),
        CompressionEncoding::Zlib(_) => CompressionEncoding::Zlib(None),
        CompressionEncoding::Zstd(_) => CompressionEncoding::Zstd(None),
        CompressionEncoding::Identity => CompressionEncoding::Identity,
    };
    if !(encoding is Identity) {
        let i = choose|i: int|
            0 <= i < encodings.len() && compression::same_kind(#[trigger] encodings[i], encoding);
        assert(compression::same_kind(encodings[i], kind));
    }
    law_kinds(encoding, kind, CompressionEncoding::Gzip(None));
    law_kinds(encoding, kind, CompressionEncoding::Zlib(None));
    law_kinds(encoding, kind, CompressionEncoding::Zstd(None));
}

/// A body known to be larger than the limit is rejected, with the status for it, whatever
/// the headers state: one whose announced size is above the limit has more bytes than the
/// limit and is rejected, and one that announces all that it has is rejected if that is
/// above the limit. A stated length above the limit is enough too. Nothing is said of a body
/// that holds more than the limit while neither its headers nor the body itself say so: it
/// is not read.
pub proof fn law_body_known_to_be_larger_is_rejected(
    limit: usize,
    headers: HeaderMap,
    announced: u64,
    actual: int,
)
    requires
        announced <= actual,
    ensures
        announced > limit ==> actual > limit && body_limit::admission(
            limit,
            body_limit::taken_size(body_limit::stated_length(headers), announced),
        ) == (body_limit::Admission::Reject { status: 413 }),
        announced == actual && actual > limit ==> body_limit::admission(
            limit,
            body_limit::taken_size(body_limit::stated_length(headers), announced),
        ) == (body_limit::Admission::Reject { status: 413 }),
        body_limit::stated_length(headers) matches Some(stated) && stated > limit
            ==> body_limit::admission(
            limit,
            body_limit::taken_size(body_limit::stated_length(headers), announced),
        ) == (body_limit::Admission::Reject { status: 413 }),
{
}

/// No request is rejected for a body within the limit, where the headers state no length
/// above the limit and the body announces no more than it has.
pub proof fn law_no_body_within_limit_is_rejected(
    limit: usize,
    stated: Option<usize>,
    announced: u64,
    actual: int,
)
    requires
        announced <= actual <= limit,
        stated matches Some(size) ==> size <= limit,
    ensures
        body_limit::admission(limit, body_limit::taken_size(stated, announced))
            == body_limit::Admission::Forward,
{
}

/// What a limit lets through, every larger limit lets through.
pub proof fn law_limits_are_monotone(smaller: usize, larger: usize, size: int)
    requires
        smaller <= larger,
        body_limit::admission(smaller, size) == body_limit::Admission::Forward,
    ensures
        body_limit::admission(larger, size) == body_limit::Admission::Forward,
{
}

/// A number is read back from its decimal text, as a body's length is.
pub proof fn law_decimal_is_read_back(n: usize)
    ensures
        header::all_visible(encode_utf8(text::decimal_text(n as nat))),
        text::parsed_usize(encode_utf8(text::decimal_text(n as nat))) == Some(n),
{
    let chars = text::decimal_text(n as nat);
    lemma_decimal_text(n as nat);
    is_ascii_chars_encode_utf8(chars);
    let digits = encode_utf8(chars);
    assert forall|i: int| 0 <= i < digits.len() implies text::is_digit(#[trigger] digits[i]) by {
        assert(digits[i] == chars[i] as u8);
    }
    assert(digits =~= chars.map_values(|c: char| c as u8));
    assert(text::is_digit(digits[0]));
    assert(text::without_plus(digits) == digits);
}

pub(crate) proof fn lemma_decimal_text(n: nat)
    ensures
        text::decimal_text(n).len() > 0,
        is_ascii_chars(text::decimal_text(n)),
        forall|i: int|
            0 <= i < text::decimal_text(n).len() ==> '0' <= #[trigger] text::decimal_text(n)[i]
                <= '9',
        text::decimal_value(text::decimal_text(n).map_values(|c: char| c as u8)) == n,
    decreases n,
{
    let chars = text::decimal_text(n);
    let octets = chars.map_values(|c: char| c as u8);
    if n < 10 {
        assert(octets.drop_last() =~= Seq::empty());
        assert(text::decimal_value(octets.drop_last()) == 0);
    } else {
        lemma_decimal_text(n / 10);
        assert(octets.drop_last() =~= text::decimal_text(n / 10).map_values(|c: char| c as u8));
    }
}

/// Every protocol that is told by a first byte is supported.
pub proof fn law_detected_is_supported(first: u8)
    ensures
        thrift::protocol_of(first) != Some(Protocol::FBThriftCompact),
{
}

/// A server answers in the protocol in which it was asked, whatever protocol it is set
/// to: once a message in `asked` has marked the context, a message is sent in `asked`.
/// The binary mark goes before the compact one, so it must not have been there already.
pub proof fn law_answer_in_the_protocol_asked(
    codec: ThriftCodec,
    marks: ProtocolMarks,
    first: u8,
    asked: Protocol,
)
    requires
        thrift::protocol_of(first) == Some(asked),
        asked == Protocol::ApacheCompact ==> marks.binary is None,
    ensures
        codec.sending_protocol(marks.with(asked)) == asked,
{
}

/// Whether two results of reading are the same: the same message, the same error of the
/// reader, or protocol exceptions of one kind with the same text.
pub open spec fn same_result<M, E>(
    left: Result<Option<M>, ThriftException<E>>,
    right: Result<Option<M>, ThriftException<E>>,
) -> bool {
    match (left, right) {
        (Err(ThriftException::Protocol(one)), Err(ThriftException::Protocol(other))) => {
            &&& one.kind == other.kind
            &&& one.message@ == other.message@
        },
        _ => left == right,
    }
}

/// The protocol that a codec is set to plays no part in reading: two codecs, set to
/// whatever protocols, that read from the same head in the same context, with a reader that
/// has one outcome for each protocol, come to the same result and leave the same marks.
pub proof fn law_reading_ignores_the_protocol_set<
    M,
    E,
    F: FnOnce(Protocol) -> Result<M, E>,
>(
    read: F,
    head: Seq<u8>,
    before: ProtocolMarks,
    one_after: ProtocolMarks,
    one: Result<Option<M>, ThriftException<E>>,
    other_after: ProtocolMarks,
    other: Result<Option<M>, ThriftException<E>>,
)
    requires
        forall|protocol: Protocol, left: Result<M, E>, right: Result<M, E>|
            #[trigger] read.ensures((protocol,), left) && #[trigger] read.ensures(
                (protocol,),
                right,
            ) ==> left == right,
        thrift::decoded(read, head, before, one_after, one),
        thrift::decoded(read, head, before, other_after, other),
    ensures
        one_after == other_after,
        same_result(one, other),
{
}

/// What is sent is read: where the bytes sent start as those of the protocol do in which
/// they were sent, the reader runs in that protocol, so that a message which reads back in
/// the protocol in which it was written comes out, and the context is marked with it. What
/// the reader leaves of the bytes may be part of what it makes of them.
pub proof fn law_message_is_read_in_the_protocol_sent<
    M,
    E,
    F: FnOnce(Protocol) -> Result<M, E>,
>(
    sender: ThriftCodec,
    sender_marks: ProtocolMarks,
    read: F,
    sent: Seq<u8>,
    message: M,
    before: ProtocolMarks,
    after: ProtocolMarks,
    result: Result<Option<M>, ThriftException<E>>,
)
    requires
        sent.len() > 0,
        thrift::leading_byte(sender.sending_protocol(sender_marks)) == Some(sent[0]),
        forall|outcome: Result<M, E>| #[trigger]
            read.ensures((sender.sending_protocol(sender_marks),), outcome) ==> outcome == Ok::<
                M,
                E,
            >(message),
        thrift::decoded(read, sent, before, after, result),
    ensures
        result == Ok::<Option<M>, ThriftException<E>>(Some(message)),
        after == before.with(sender.sending_protocol(sender_marks)),
{
}

/// A client, whose context carries no mark, sends in the protocol that it is set to.
pub proof fn law_client_sends_in_its_protocol(codec: ThriftCodec, marks: ProtocolMarks)
    requires
        marks.binary is None,
        marks.apache_compact is None,
    ensures
        codec.sending_protocol(marks) == codec.client_protocol(),
{
}

/// Marking a context twice with one protocol is marking it once, and no mark is lost.
pub proof fn law_marks_stay(marks: ProtocolMarks, first: Protocol, second: Protocol)
    ensures
        marks.with(first).with(first) == marks.with(first),
        marks.with(first).with(second) == marks.with(second).with(first),
        marks.binary is Some ==> marks.with(first).binary is Some,
        marks.apache_compact is Some ==> marks.with(first).apache_compact is Some,
{
}

/// Each encoding packs with its own compressor at the level configured for it, fails with
/// the errors of that compressor alone, and writes nothing where no level is configured.
pub proof fn law_each_encoding_packs_in_its_format(level: Level, data: Seq<u8>, packed: Seq<u8>)
    ensures
        compression::packs(
            CompressionEncoding::Gzip(Some(GzipConfig { level })),
            data,
            packed,
        ) <==> backend::gzip_encoded(data, level.value).0 == Some(packed),
        compression::packs(
            CompressionEncoding::Zlib(Some(ZlibConfig { level })),
            data,
            packed,
        ) <==> backend::zlib_encoded(data, level.value).0 == Some(packed),
        compression::packs(CompressionEncoding::Gzip(None), data, packed) <==> packed.len() == 0,
        compression::packs(CompressionEncoding::Zlib(None), data, packed) <==> packed.len() == 0,
        compression::packs(CompressionEncoding::Zstd(None), data, packed) <==> packed.len() == 0,
        compression::packs(CompressionEncoding::Identity, data, packed) <==> packed.len() == 0,
        compression::pack_errors(CompressionEncoding::Gzip(Some(GzipConfig { level })), data)
            == backend::gzip_encoded(data, level.value).1,
        compression::pack_errors(CompressionEncoding::Zlib(Some(ZlibConfig { level })), data)
            == backend::zlib_encoded(data, level.value).1,
        forall|encoding: CompressionEncoding, cause: std::io::Error|
            !(encoding matches CompressionEncoding::Gzip(Some(_))) && !(encoding matches
                CompressionEncoding::Zlib(Some(_))) && !(encoding matches CompressionEncoding::Zstd(
                Some(_),
            )) ==> !#[trigger] compression::pack_errors(encoding, data).contains(cause),
        forall|encoding: CompressionEncoding| #[trigger]
            compression::is_configured(encoding) <==> (encoding matches CompressionEncoding::Gzip(
                Some(_),
            ) || encoding matches CompressionEncoding::Zlib(Some(_)) || encoding matches
                CompressionEncoding::Zstd(Some(_))),
        compression::level_is_known(CompressionEncoding::Gzip(Some(GzipConfig { level })))
            <==> level.value <= 10,
        compression::level_is_known(CompressionEncoding::Zlib(Some(ZlibConfig { level })))
            <==> level.value <= 10,
        forall|encoding: CompressionEncoding|
            !(encoding matches CompressionEncoding::Gzip(Some(_))) && !(encoding matches
                CompressionEncoding::Zlib(Some(_))) ==> #[trigger] compression::level_is_known(
                encoding,
            ),
{
    assert(packed.len() == 0 ==> packed =~= Seq::empty());
}

/// The level of an encoding is the one configured for it, and 6 where none is.
pub proof fn law_level_is_the_one_configured(level: Level, encoding: CompressionEncoding)
    ensures
        encoding == CompressionEncoding::Gzip(Some(GzipConfig { level })) || encoding
            == CompressionEncoding::Zlib(Some(ZlibConfig { level })) || encoding
            == CompressionEncoding::Zstd(Some(ZstdConfig { level })) ==> compression::level_of(
            encoding,
        ) == level.value,
        !(encoding matches CompressionEncoding::Gzip(Some(_))) && !(encoding matches
            CompressionEncoding::Zlib(Some(_))) && !(encoding matches CompressionEncoding::Zstd(
            Some(_),
        )) ==> compression::level_of(encoding) == 6,
{
}

/// Each encoding unpacks with its own decompressor, whatever is configured for it, and fails
/// with the errors of that decompressor alone; the identity unpacks to nothing and does not
/// fail.
pub proof fn law_each_encoding_unpacks_its_format(encoding: CompressionEncoding, data: Seq<u8>)
    ensures
        encoding is Gzip ==> compression::unpacked(encoding, data) == backend::gzip_decoded(data).0
            && compression::unpack_errors(encoding, data) == backend::gzip_decoded(data).1,
        encoding is Zlib ==> compression::unpacked(encoding, data) == backend::zlib_decoded(data).0
            && compression::unpack_errors(encoding, data) == backend::zlib_decoded(data).1,
        encoding is Zstd ==> compression::unpacked(encoding, data) == backend::zstd_decoded(data).0
            && compression::unpack_errors(encoding, data) == backend::zstd_decoded(data).1,
        encoding is Identity ==> compression::unpacked(encoding, data) == Some(Seq::<u8>::empty())
            && forall|cause: std::io::Error| !#[trigger] compression::unpack_errors(
            encoding,
            data,
        ).contains(cause),
{
}

/// Compressing with zstd fails with an error of the zstd encoder on these bytes at this
/// level, and with no other, so it succeeds wherever the encoder has none to fail with: then
/// a frame that the encoder may make of the bytes stands at the end, and the zstd decoder
/// takes it for the bytes again.
pub proof fn law_zstd_compresses_unless_the_encoder_fails(
    config: ZstdConfig,
    level: i32,
    data: Seq<u8>,
    before: Seq<u8>,
    after: Seq<u8>,
    result: Result<(), CompressionError>,
)
    requires
        config.level.value == 0 ==> level == 3,
        0 < config.level.value < 0x8000_0000 ==> level == config.level.value,
        config.level.value >= 0x8000_0000 ==> level == config.level.value - 0x1_0000_0000,
        result is Ok ==> compression::compressed(
            CompressionEncoding::Zstd(Some(config)),
            data,
            before,
            after,
        ),
        result matches Err(error) ==> compression::pack_errors(
            CompressionEncoding::Zstd(Some(config)),
            data,
        ).contains(error.cause),
    ensures
        result matches Err(error) ==> backend::zstd_frames(data, level).1.contains(error.cause),
        backend::zstd_frames(data, level).1 == Set::<std::io::Error>::empty() ==> result is Ok,
        result is Ok ==> exists|frame: Seq<u8>|
            {
                &&& #[trigger] backend::zstd_frames(data, level).0.contains(frame)
                &&& after == before + frame
                &&& backend::zstd_decoded(frame).0 == Some(data)
            },
{
    if result is Ok {
        let frame = backend::added(before, after);
        assert(after =~= before + frame);
        assert(backend::zstd_frames(data, level).0.contains(frame));
    }
}

/// Decompressing with zstd fails with an error of the zstd decoder on these bytes, and with
/// no other, so it succeeds wherever the decoder has none to fail with: then the contents
/// of the frames stand at the end.
pub proof fn law_zstd_decompresses_unless_the_decoder_fails(
    config: Option<ZstdConfig>,
    data: Seq<u8>,
    before: Seq<u8>,
    after: Seq<u8>,
    result: Result<(), CompressionError>,
)
    requires
        result is Ok ==> compression::decompressed(
            CompressionEncoding::Zstd(config),
            data,
            before,
            after,
        ),
        result matches Err(error) ==> compression::unpack_errors(
            CompressionEncoding::Zstd(config),
            data,
        ).contains(error.cause),
    ensures
        result matches Err(error) ==> backend::zstd_decoded(data).1.contains(error.cause),
        backend::zstd_decoded(data).1 == Set::<std::io::Error>::empty() ==> result is Ok,
        result is Ok ==> (backend::zstd_decoded(data).0 matches Some(contents) && after == before
            + contents),
{
    if result is Ok {
        assert(after =~= before + backend::added(before, after));
    }
}

/// What compressing or decompressing puts out is appended: the bytes before stay, and behind
/// them stands what came out, and nothing else.
pub proof fn law_output_is_appended(
    encoding: CompressionEncoding,
    data: Seq<u8>,
    before: Seq<u8>,
    output: Seq<u8>,
)
    ensures
        compression::compressed(encoding, data, before, before + output) <==> {
            &&& compression::packs(encoding, data, output)
            &&& compression::is_configured(encoding) ==> compression::unpacked(encoding, output)
                == Some(data)
        },
        compression::decompressed(encoding, data, before, before + output)
            <==> compression::unpacked(encoding, data) == Some(output),
        forall|after: Seq<u8>|
            #![trigger compression::compressed(encoding, data, before, after)]
            compression::compressed(encoding, data, before, after) ==> after.len() >= before.len()
                && after.take(before.len() as int) == before,
        forall|after: Seq<u8>|
            #![trigger compression::decompressed(encoding, data, before, after)]
            compression::decompressed(encoding, data, before, after) ==> after.len()
                >= before.len() && after.take(before.len() as int) == before,
        compression::comes_out(before, Some(output)) <==> before.len() + output.len()
            <= isize::MAX,
        !compression::comes_out(before, None),
{
    assert(backend::added(before, before + output) =~= output);
    assert forall|after: Seq<u8>|
        #![trigger compression::compressed(encoding, data, before, after)]
        compression::compressed(encoding, data, before, after) implies after.len() >= before.len()
        && after.take(before.len() as int) == before by {
        assert(after.take(before.len() as int) =~= before);
    }
    assert forall|after: Seq<u8>|
        #![trigger compression::decompressed(encoding, data, before, after)]
        compression::decompressed(encoding, data, before, after) implies after.len()
        >= before.len() && after.take(before.len() as int) == before by {
        assert(after.take(before.len() as int) =~= before);
    }
}

/// The room reserved is a whole number of steps of 8192 bytes, more than is asked for and by
/// no more than one step, and there is room exactly where a buffer can hold that much more.
pub proof fn law_room_is_reserved_in_steps(len: int, held: int)
    requires
        0 <= len,
    ensures
        compression::reserved_for(len) % 8192 == 0,
        len < compression::reserved_for(len) <= len + 8192,
        compression::has_room(len, held) <==> held + compression::reserved_for(len) <= isize::MAX,
{
}

/// The first byte tells the protocol: 0x80 and 0x00 start a binary message, 0x82 starts a
/// compact one, and no other byte starts any.
pub proof fn law_first_byte_tells_the_protocol(first: u8, protocol: Protocol)
    ensures
        thrift::protocol_of(first) == Some(Protocol::Binary) <==> first == 0x80 || first == 0,
        thrift::protocol_of(first) == Some(Protocol::ApacheCompact) <==> first == 0x82,
        thrift::protocol_of(first) is None <==> first != 0x80 && first != 0 && first != 0x82,
        thrift::leading_byte(protocol) == Some(first) ==> thrift::protocol_of(first) == Some(
            protocol,
        ),
        thrift::leading_byte(protocol) is None <==> protocol == Protocol::FBThriftCompact,
{
}

/// A message goes out in the protocol that the context is marked with, the binary one before
/// the compact one, and without a mark in the protocol that the codec is set to.
pub proof fn law_marks_decide_how_to_send(codec: ThriftCodec, marks: ProtocolMarks)
    ensures
        marks.binary is Some ==> codec.sending_protocol(marks) == Protocol::Binary,
        marks.binary is None && marks.apache_compact is Some ==> codec.sending_protocol(marks)
            == Protocol::ApacheCompact,
        marks.binary is None && marks.apache_compact is None ==> codec.sending_protocol(marks)
            == codec.client_protocol(),
{
}

/// Marking a context sets the mark of the protocol, if it has one, and leaves the other.
pub proof fn law_marking_sets_one_mark(marks: ProtocolMarks)
    ensures
        marks.with(Protocol::Binary).binary is Some,
        marks.with(Protocol::Binary).apache_compact == marks.apache_compact,
        marks.with(Protocol::ApacheCompact).apache_compact is Some,
        marks.with(Protocol::ApacheCompact).binary == marks.binary,
        marks.with(Protocol::FBThriftCompact) == marks,
{
}

/// What an exception says: its kind, and its text letter by letter.
pub proof fn law_exceptions_say_what_is_wrong(exception: ProtocolException, first: u8)
    ensures
        thrift::is_unknown_protocol(exception, first) <==> {
            &&& exception.kind == ProtocolExceptionKind::BadVersion
            &&& exception.message@ == "unknown protocol, first byte: "@ + text::decimal_text(
                first as nat,
            )
        },
        thrift::is_missing_head(exception) <==> {
            &&& exception.kind == ProtocolExceptionKind::BadVersion
            &&& exception.message@ == "not enough bytes to detect protocol in thrift codec"@
        },
        thrift::is_unsupported(exception) <==> {
            &&& exception.kind == ProtocolExceptionKind::NotImplemented
            &&& exception.message@ == "protocol FBThriftCompact is not supported"@
        },
{
}

/// What reading from a buffer comes to, for every head: without a byte, or with a first byte
/// that starts no protocol, an exception that says so; else what the reader comes to in the
/// protocol of the first byte. The context is marked with the protocol of a message that was
/// read, and left as it is in every other case.
pub proof fn law_reading_goes_by_the_first_byte<M, E, F: FnOnce(Protocol) -> Result<M, E>>(
    read: F,
    head: Seq<u8>,
    before: ProtocolMarks,
    after: ProtocolMarks,
    result: Result<Option<M>, ThriftException<E>>,
)
    requires
        thrift::decoded(read, head, before, after, result),
    ensures
        head.len() == 0 ==> (result matches Err(ThriftException::Protocol(exception))
            && thrift::is_missing_head(exception)),
        head.len() > 0 && head[0] != 0x80 && head[0] != 0 && head[0] != 0x82 ==> (result matches Err(
            ThriftException::Protocol(exception),
        ) && thrift::is_unknown_protocol(exception, head[0])),
        head.len() > 0 && (head[0] == 0x80 || head[0] == 0) ==> match result {
            Ok(Some(message)) => {
                &&& read.ensures((Protocol::Binary,), Ok(message))
                &&& after.binary is Some
                &&& after.apache_compact == before.apache_compact
            },
            Err(ThriftException::Message(error)) => read.ensures((Protocol::Binary,), Err(error)),
            _ => false,
        },
        head.len() > 0 && head[0] == 0x82 ==> match result {
            Ok(Some(message)) => {
                &&& read.ensures((Protocol::ApacheCompact,), Ok(message))
                &&& after.apache_compact is Some
                &&& after.binary == before.binary
            },
            Err(ThriftException::Message(error)) => read.ensures(
                (Protocol::ApacheCompact,),
                Err(error),
            ),
            _ => false,
        },
        result is Err ==> after == before,
        result != Ok::<Option<M>, ThriftException<E>>(None),
{
}

/// A stream is read as a buffer is: where its head asks for a message to be read, and the
/// message is read in the protocol asked for, the result and the marks are those of reading
/// from a buffer with that head; where its head ends the reading, so it is at once. The end
/// of reading is noted unless the message could not be read.
pub proof fn law_stream_is_read_as_a_buffer<M, E, F: FnOnce(Protocol) -> Result<M, E>>(
    read: F,
    head: Vec<u8>,
    before: ProtocolMarks,
    between: ProtocolMarks,
    after: ProtocolMarks,
    first: DecodeAction<M, E>,
    outcome: Result<M, E>,
    second: DecodeAction<M, E>,
)
    requires
        head@.len() > 0,
        thrift::stepped(DecodeEvent::Head(head), before, between, first),
        first matches DecodeAction::ReadMessage(protocol) ==> {
            &&& read.ensures((protocol,), outcome)
            &&& thrift::stepped(DecodeEvent::Message { protocol, outcome }, between, after, second)
        },
    ensures
        match first {
            DecodeAction::ReadMessage(protocol) => {
                &&& thrift::protocol_of(head@[0]) == Some(protocol)
                &&& second matches DecodeAction::Finish { result, record_read_end }
                &&& thrift::decoded(read, head@, before, after, result)
                &&& record_read_end <==> outcome is Ok
            },
            DecodeAction::Finish { result, record_read_end } => {
                &&& thrift::decoded(read, head@, before, between, result)
                &&& result is Err
                &&& record_read_end
            },
        },
        forall|last: DecodeAction<M, E>| #[trigger]
            thrift::stepped(DecodeEvent::HeadMissing, before, between, last) ==> (last matches
                DecodeAction::Finish { result, record_read_end } && record_read_end
                && thrift::decoded(read, Seq::empty(), before, between, result)),
{
}

/// Writing and measuring go by one protocol: both are refused in the one that is not
/// supported, in the same words, and in the others neither is; then what is written and what
/// is measured is what the writer and the measure come to in that protocol, and the lengths
/// differ by the bytes that are linked in.
pub proof fn law_writing_and_measuring_agree<
    E,
    W: FnOnce(Protocol) -> Result<(), E>,
    F: FnOnce(Protocol) -> MessageLength,
>(
    write: W,
    measure: F,
    protocol: Protocol,
    sent: Result<(), ThriftException<E>>,
    sizes: Result<(usize, usize), ProtocolException>,
    length: MessageLength,
)
    requires
        thrift::encoded(write, protocol, sent),
        thrift::measured(measure, protocol, sizes),
        forall|other: MessageLength| #[trigger]
            measure.ensures((protocol,), other) ==> other == length,
    ensures
        sizes is Err <==> protocol == Protocol::FBThriftCompact,
        sent matches Err(ThriftException::Protocol(exception)) ==> protocol
            == Protocol::FBThriftCompact && thrift::is_unsupported(exception),
        protocol == Protocol::FBThriftCompact ==> sent matches Err(ThriftException::Protocol(_)),
        sizes matches Err(exception) ==> thrift::is_unsupported(exception),
        sent matches Ok(done) ==> write.ensures((protocol,), Ok(done)),
        sent matches Err(ThriftException::Message(error)) ==> write.ensures(
            (protocol,),
            Err(error),
        ),
        sizes matches Ok((all, copied)) ==> all == length.total && copied + length.zero_copy
            == length.total,
{
}

} // verus!
