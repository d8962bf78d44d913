//! Parameters of INIT, INIT-ACK, HEARTBEAT and RECONFIG chunks: a 16-bit
//! type, a 16-bit length that counts the 4-byte header and the value, then
//! the value.
use vstd::prelude::*;
use crate::codec::{
    lemma_be16_of_bytes, lemma_be32_of_bytes, lemma_bytes_of_u16s_of, lemma_u16_bytes_of_be16,
    lemma_u32_bytes_of_be32, lemma_u16s_round_trip, be16, be32, bytes_of_u16s, copy_bytes, read_u16, read_u16s, read_u32, u16_bytes, u16s_of,
    u32_bytes, write_bytes, write_u16, write_u16s, write_u32,
};
use crate::error::Error;

verus! {

pub const PARAM_HEADER_LENGTH: usize = 4;

pub const PARAM_TYPE_HEARTBEAT_INFO: u16 = 1;

pub const PARAM_TYPE_STATE_COOKIE: u16 = 7;

pub const PARAM_TYPE_OUT_SSN_RESET_REQ: u16 = 13;

pub const PARAM_TYPE_RECONFIG_RESP: u16 = 16;

pub const PARAM_TYPE_RANDOM: u16 = 0x8002;

pub const PARAM_TYPE_CHUNK_LIST: u16 = 0x8003;

pub const PARAM_TYPE_REQ_HMAC_ALGO: u16 = 0x8004;

pub const PARAM_TYPE_SUPPORTED_EXT: u16 = 0x8008;

pub const PARAM_TYPE_FORWARD_TSN_SUPP: u16 = 0xc000;

/// A decoded parameter, one variant per known type.
#[derive(Clone, Debug)]
pub enum Param {
    ForwardTsnSupported,
    SupportedExtensions { chunk_types: Vec<u8> },
    Random { random_data: Vec<u8> },
    RequestedHmacAlgorithm { available_algorithms: Vec<u16> },
    ChunkList { chunk_types: Vec<u8> },
    StateCookie { cookie: Vec<u8> },
    HeartbeatInfo { heartbeat_information: Vec<u8> },
    OutgoingResetRequest {
        reconfig_request_sequence_number: u32,
        reconfig_response_sequence_number: u32,
        sender_last_tsn: u32,
        stream_identifiers: Vec<u16>,
    },
    /// `next_tsns` holds the optional sender's and receiver's next TSN.
    ReconfigResponse {
        reconfig_response_sequence_number: u32,
        result: u32,
        next_tsns: Option<(u32, u32)>,
    },
    /// A type this endpoint does not know whose action bits say "skip";
    /// kept so that it can be reported back.
    Unrecognized { param_type: u16, value: Vec<u8> },
}

/// What a parameter means, with sequences in place of buffers.
pub enum ParamModel {
    ForwardTsnSupported,
    SupportedExtensions(Seq<u8>),
    Random(Seq<u8>),
    RequestedHmacAlgorithm(Seq<u16>),
    ChunkList(Seq<u8>),
    StateCookie(Seq<u8>),
    HeartbeatInfo(Seq<u8>),
    OutgoingResetRequest { req_seq: u32, resp_seq: u32, last_tsn: u32, sids: Seq<u16> },
    ReconfigResponse { resp_seq: u32, result: u32, next: Option<(u32, u32)> },
    Unrecognized { param_type: u16, value: Seq<u8> },
}

impl View for Param {
    type V = ParamModel;

    open spec fn view(&self) -> ParamModel {
        match self {
            Param::ForwardTsnSupported => ParamModel::ForwardTsnSupported,
            Param::SupportedExtensions { chunk_types } => ParamModel::SupportedExtensions(
                chunk_types@,
            ),
            Param::Random { random_data } => ParamModel::Random(random_data@),
            Param::RequestedHmacAlgorithm { available_algorithms } =>
                ParamModel::RequestedHmacAlgorithm(available_algorithms@),
            Param::ChunkList { chunk_types } => ParamModel::ChunkList(chunk_types@),
            Param::StateCookie { cookie } => ParamModel::StateCookie(cookie@),
            Param::HeartbeatInfo { heartbeat_information } => ParamModel::HeartbeatInfo(
                heartbeat_information@,
            ),
            Param::OutgoingResetRequest {
                reconfig_request_sequence_number,
                reconfig_response_sequence_number,
                sender_last_tsn,
                stream_identifiers,
            } => ParamModel::OutgoingResetRequest {
                req_seq: *reconfig_request_sequence_number,
                resp_seq: *reconfig_response_sequence_number,
                last_tsn: *sender_last_tsn,
                sids: stream_identifiers@,
            },
            Param::ReconfigResponse { reconfig_response_sequence_number, result, next_tsns } =>
                ParamModel::ReconfigResponse {
                resp_seq: *reconfig_response_sequence_number,
                result: *result,
                next: *next_tsns,
            },
            Param::Unrecognized { param_type, value } => ParamModel::Unrecognized {
                param_type: *param_type,
                value: value@,
            },
        }
    }
}

/// The wire type of a parameter.
pub open spec fn type_code(m: ParamModel) -> u16 {
    match m {
        ParamModel::ForwardTsnSupported => PARAM_TYPE_FORWARD_TSN_SUPP,
        ParamModel::SupportedExtensions(_) => PARAM_TYPE_SUPPORTED_EXT,
        ParamModel::Random(_) => PARAM_TYPE_RANDOM,
        ParamModel::RequestedHmacAlgorithm(_) => PARAM_TYPE_REQ_HMAC_ALGO,
        ParamModel::ChunkList(_) => PARAM_TYPE_CHUNK_LIST,
        ParamModel::StateCookie(_) => PARAM_TYPE_STATE_COOKIE,
        ParamModel::HeartbeatInfo(_) => PARAM_TYPE_HEARTBEAT_INFO,
        ParamModel::OutgoingResetRequest { .. } => PARAM_TYPE_OUT_SSN_RESET_REQ,
        ParamModel::ReconfigResponse { .. } => PARAM_TYPE_RECONFIG_RESP,
        ParamModel::Unrecognized { param_type, .. } => param_type,
    }
}

/// The value bytes of a parameter, without header or padding.
pub open spec fn value_bytes(m: ParamModel) -> Seq<u8> {
    match m {
        ParamModel::ForwardTsnSupported => Seq::empty(),
        ParamModel::SupportedExtensions(v) => v,
        ParamModel::Random(v) => v,
        ParamModel::RequestedHmacAlgorithm(a) => bytes_of_u16s(a),
        ParamModel::ChunkList(v) => v,
        ParamModel::StateCookie(v) => v,
        ParamModel::HeartbeatInfo(v) => v,
        ParamModel::OutgoingResetRequest { req_seq, resp_seq, last_tsn, sids } => u32_bytes(
            req_seq,
        ) + u32_bytes(resp_seq) + u32_bytes(last_tsn) + bytes_of_u16s(sids),
        ParamModel::ReconfigResponse { resp_seq, result, next } => u32_bytes(resp_seq)
            + u32_bytes(result) + match next {
            Some(n) => u32_bytes(n.0) + u32_bytes(n.1),
            None => Seq::empty(),
        },
        ParamModel::Unrecognized { value, .. } => value,
    }
}

/// The header and the value, as `marshal` writes them.
pub open spec fn param_bytes(m: ParamModel) -> Seq<u8> {
    u16_bytes(type_code(m)) + u16_bytes((value_bytes(m).len() + 4) as u16) + value_bytes(m)
}

/// The value fits the length field.
pub open spec fn value_fits(m: ParamModel) -> bool {
    value_bytes(m).len() + 4 <= 0xffff
}

pub open spec fn is_known_type(t: u16) -> bool {
    t == PARAM_TYPE_FORWARD_TSN_SUPP || t == PARAM_TYPE_SUPPORTED_EXT || t == PARAM_TYPE_RANDOM
        || t == PARAM_TYPE_REQ_HMAC_ALGO || t == PARAM_TYPE_CHUNK_LIST || t
        == PARAM_TYPE_STATE_COOKIE || t == PARAM_TYPE_HEARTBEAT_INFO || t
        == PARAM_TYPE_OUT_SSN_RESET_REQ || t == PARAM_TYPE_RECONFIG_RESP
}

/// The two high-order bits of an unknown type: set high bit means "skip
/// and go on", clear means "stop and reject".
pub open spec fn skip_unknown(t: u16) -> bool {
    t >= 0x8000
}

/// A parameter that can be written and read back as itself.
pub open spec fn well_formed(m: ParamModel) -> bool {
    &&& value_fits(m)
    &&& m matches ParamModel::Unrecognized { param_type, .. } ==> !is_known_type(param_type)
        && skip_unknown(param_type)
}

/// The value of a parameter of type `t`.
pub open spec fn parse_value(t: u16, v: Seq<u8>) -> Result<ParamModel, Error> {
    if t == PARAM_TYPE_FORWARD_TSN_SUPP {
        if v.len() != 0 {
            Err(Error::ErrParamHeaderLengthInvalid)
        } else {
            Ok(ParamModel::ForwardTsnSupported)
        }
    } else if t == PARAM_TYPE_SUPPORTED_EXT {
        Ok(ParamModel::SupportedExtensions(v))
    } else if t == PARAM_TYPE_RANDOM {
        Ok(ParamModel::Random(v))
    } else if t == PARAM_TYPE_REQ_HMAC_ALGO {
        if v.len() % 2 != 0 {
            Err(Error::ErrParamHeaderLengthInvalid)
        } else {
            Ok(ParamModel::RequestedHmacAlgorithm(u16s_of(v)))
        }
    } else if t == PARAM_TYPE_CHUNK_LIST {
        Ok(ParamModel::ChunkList(v))
    } else if t == PARAM_TYPE_STATE_COOKIE {
        Ok(ParamModel::StateCookie(v))
    } else if t == PARAM_TYPE_HEARTBEAT_INFO {
        Ok(ParamModel::HeartbeatInfo(v))
    } else if t == PARAM_TYPE_OUT_SSN_RESET_REQ {
        if v.len() < 12 {
            Err(Error::ErrSsnResetRequestParamTooShort)
        } else if (v.len() - 12) % 2 != 0 {
            Err(Error::ErrParamHeaderLengthInvalid)
        } else {
            Ok(
                ParamModel::OutgoingResetRequest {
                    req_seq: be32(v, 0),
                    resp_seq: be32(v, 4),
                    last_tsn: be32(v, 8),
                    sids: u16s_of(v.subrange(12, v.len() as int)),
                },
            )
        }
    } else if t == PARAM_TYPE_RECONFIG_RESP {
        if v.len() < 8 {
            Err(Error::ErrReconfigRespParamTooShort)
        } else if v.len() == 8 {
            Ok(ParamModel::ReconfigResponse { resp_seq: be32(v, 0), result: be32(v, 4), next: None })
        } else if v.len() == 16 {
            Ok(
                ParamModel::ReconfigResponse {
                    resp_seq: be32(v, 0),
                    result: be32(v, 4),
                    next: Some((be32(v, 8), be32(v, 12))),
                },
            )
        } else {
            Err(Error::ErrParamHeaderLengthInvalid)
        }
    } else if skip_unknown(t) {
        Ok(ParamModel::Unrecognized { param_type: t, value: v })
    } else {
        Err(Error::ErrParamTypeUnhandled)
    }
}

/// The parameter at the start of `s`; bytes past its length are not read.
pub open spec fn parse_param(s: Seq<u8>) -> Result<ParamModel, Error> {
    if s.len() < 4 {
        Err(Error::ErrParamHeaderTooShort)
    } else {
        let len = be16(s, 2) as int;
        if len < 4 || len > s.len() {
            Err(Error::ErrParamHeaderLengthInvalid)
        } else {
            parse_value(be16(s, 0), s.subrange(4, len))
        }
    }
}

pub open spec fn param_result_view(r: Result<Param, Error>) -> Result<ParamModel, Error> {
    match r {
        Ok(p) => Ok(p@),
        Err(e) => Err(e),
    }
}

impl Param {
    /// Number of value bytes `marshal` writes after the header.
    pub fn value_length(&self) -> (r: usize)
        ensures
            r == value_bytes(self@).len(),
    {
        let mut v: Vec<u8> = Vec::new();
        self.marshal_value(&mut v);
        v.len()
    }

    /// Appends the value bytes.
    pub fn marshal_value(&self, out: &mut Vec<u8>)
        ensures
            final(out)@ == old(out)@ + value_bytes(self@),
    {
        match self {
            Param::ForwardTsnSupported => {
                assert(out@ =~= old(out)@ + value_bytes(self@));
            },
            Param::SupportedExtensions { chunk_types } => write_bytes(out, chunk_types),
            Param::Random { random_data } => write_bytes(out, random_data),
            Param::RequestedHmacAlgorithm { available_algorithms } => write_u16s(
                out,
                available_algorithms,
            ),
            Param::ChunkList { chunk_types } => write_bytes(out, chunk_types),
            Param::StateCookie { cookie } => write_bytes(out, cookie),
            Param::HeartbeatInfo { heartbeat_information } => write_bytes(
                out,
                heartbeat_information,
            ),
            Param::OutgoingResetRequest {
                reconfig_request_sequence_number,
                reconfig_response_sequence_number,
                sender_last_tsn,
                stream_identifiers,
            } => {
                write_u32(out, *reconfig_request_sequence_number);
                write_u32(out, *reconfig_response_sequence_number);
                write_u32(out, *sender_last_tsn);
                write_u16s(out, stream_identifiers);
                assert(out@ =~= old(out)@ + value_bytes(self@));
            },
            Param::ReconfigResponse { reconfig_response_sequence_number, result, next_tsns } => {
                write_u32(out, *reconfig_response_sequence_number);
                write_u32(out, *result);
                match next_tsns {
                    Some(n) => {
                        write_u32(out, n.0);
                        write_u32(out, n.1);
                    },
                    None => {},
                }
                assert(out@ =~= old(out)@ + value_bytes(self@));
            },
            Param::Unrecognized { value, .. } => write_bytes(out, value),
        }
    }

    /// The wire type of this parameter.
    pub fn param_type(&self) -> (r: u16)
        ensures
            r == type_code(self@),
    {
        match self {
            Param::ForwardTsnSupported => PARAM_TYPE_FORWARD_TSN_SUPP,
            Param::SupportedExtensions { .. } => PARAM_TYPE_SUPPORTED_EXT,
            Param::Random { .. } => PARAM_TYPE_RANDOM,
            Param::RequestedHmacAlgorithm { .. } => PARAM_TYPE_REQ_HMAC_ALGO,
            Param::ChunkList { .. } => PARAM_TYPE_CHUNK_LIST,
            Param::StateCookie { .. } => PARAM_TYPE_STATE_COOKIE,
            Param::HeartbeatInfo { .. } => PARAM_TYPE_HEARTBEAT_INFO,
            Param::OutgoingResetRequest { .. } => PARAM_TYPE_OUT_SSN_RESET_REQ,
            Param::ReconfigResponse { .. } => PARAM_TYPE_RECONFIG_RESP,
            Param::Unrecognized { param_type, .. } => *param_type,
        }
    }

    /// Header and value. An unrecognized parameter whose type is known or
    /// asks for rejection is refused, as is a value too long for the length
    /// field.
    pub fn marshal(&self) -> (r: Result<Vec<u8>, Error>)
        ensures
            well_formed(self@) ==> (r matches Ok(b) && b@ == param_bytes(self@)),
            self@ matches ParamModel::Unrecognized { param_type, .. } && (is_known_type(param_type)
                || !skip_unknown(param_type)) ==> r == Err::<Vec<u8>, Error>(
                Error::ErrParamTypeUnhandled,
            ),
            !value_fits(self@) && !(self@ matches ParamModel::Unrecognized { param_type, .. } && (
            is_known_type(param_type) || !skip_unknown(param_type))) ==> r == Err::<Vec<u8>, Error>(
                Error::ErrParamValueTooLong,
            ),
    {
        if let Param::Unrecognized { param_type, .. } = self {
            if is_known_param_type(*param_type) || *param_type < 0x8000 {
                return Err(Error::ErrParamTypeUnhandled);
            }
        }
        let mut value: Vec<u8> = Vec::new();
        self.marshal_value(&mut value);
        assert(value@ =~= value_bytes(self@));
        if value.len() > 0xffff - PARAM_HEADER_LENGTH {
            return Err(Error::ErrParamValueTooLong);
        }
        let mut buf: Vec<u8> = Vec::new();
        write_u16(&mut buf, self.param_type());
        write_u16(&mut buf, (value.len() + PARAM_HEADER_LENGTH) as u16);
        write_bytes(&mut buf, &value);
        assert(buf@ =~= param_bytes(self@));
        Ok(buf)
    }
}

fn is_known_param_type(t: u16) -> (r: bool)
    ensures
        r == is_known_type(t),
{
    t == PARAM_TYPE_FORWARD_TSN_SUPP || t == PARAM_TYPE_SUPPORTED_EXT || t == PARAM_TYPE_RANDOM
        || t == PARAM_TYPE_REQ_HMAC_ALGO || t == PARAM_TYPE_CHUNK_LIST || t
        == PARAM_TYPE_STATE_COOKIE || t == PARAM_TYPE_HEARTBEAT_INFO || t
        == PARAM_TYPE_OUT_SSN_RESET_REQ || t == PARAM_TYPE_RECONFIG_RESP
}

/// Decodes the parameter at the start of `raw_param` into its variant.
pub fn build_param(raw_param: &[u8]) -> (r: Result<Param, Error>)
    ensures
        param_result_view(r) == parse_param(raw_param@),
{
    if raw_param.len() < PARAM_HEADER_LENGTH {
        return Err(Error::ErrParamHeaderTooShort);
    }
    let t = read_u16(raw_param, 0);
    let len = read_u16(raw_param, 2) as usize;
    if len < PARAM_HEADER_LENGTH || len > raw_param.len() {
        return Err(Error::ErrParamHeaderLengthInvalid);
    }
    let ghost v = raw_param@.subrange(4, len as int);
    if t == PARAM_TYPE_FORWARD_TSN_SUPP {
        if len != PARAM_HEADER_LENGTH {
            return Err(Error::ErrParamHeaderLengthInvalid);
        }
        Ok(Param::ForwardTsnSupported)
    } else if t == PARAM_TYPE_SUPPORTED_EXT {
        Ok(Param::SupportedExtensions { chunk_types: copy_bytes(raw_param, 4, len) })
    } else if t == PARAM_TYPE_RANDOM {
        Ok(Param::Random { random_data: copy_bytes(raw_param, 4, len) })
    } else if t == PARAM_TYPE_REQ_HMAC_ALGO {
        if (len - 4) % 2 != 0 {
            return Err(Error::ErrParamHeaderLengthInvalid);
        }
        Ok(Param::RequestedHmacAlgorithm { available_algorithms: read_u16s(raw_param, 4, len) })
    } else if t == PARAM_TYPE_CHUNK_LIST {
        Ok(Param::ChunkList { chunk_types: copy_bytes(raw_param, 4, len) })
    } else if t == PARAM_TYPE_STATE_COOKIE {
        Ok(Param::StateCookie { cookie: copy_bytes(raw_param, 4, len) })
    } else if t == PARAM_TYPE_HEARTBEAT_INFO {
        Ok(Param::HeartbeatInfo { heartbeat_information: copy_bytes(raw_param, 4, len) })
    } else if t == PARAM_TYPE_OUT_SSN_RESET_REQ {
        if len < 16 {
            return Err(Error::ErrSsnResetRequestParamTooShort);
        }
        if (len - 16) % 2 != 0 {
            return Err(Error::ErrParamHeaderLengthInvalid);
        }
        let req = read_u32(raw_param, 4);
        let resp = read_u32(raw_param, 8);
        let last = read_u32(raw_param, 12);
        let sids = read_u16s(raw_param, 16, len);
        assert(v.subrange(12, v.len() as int) =~= raw_param@.subrange(16, len as int));
        assert(be32(v, 0) == req && be32(v, 4) == resp && be32(v, 8) == last);
        Ok(
            Param::OutgoingResetRequest {
                reconfig_request_sequence_number: req,
                reconfig_response_sequence_number: resp,
                sender_last_tsn: last,
                stream_identifiers: sids,
            },
        )
    } else if t == PARAM_TYPE_RECONFIG_RESP {
        if len < 12 {
            return Err(Error::ErrReconfigRespParamTooShort);
        }
        if len != 12 && len != 20 {
            return Err(Error::ErrParamHeaderLengthInvalid);
        }
        let resp = read_u32(raw_param, 4);
        let result = read_u32(raw_param, 8);
        assert(be32(v, 0) == resp && be32(v, 4) == result);
        let next_tsns = if len == 20 {
            let sender = read_u32(raw_param, 12);
            let receiver = read_u32(raw_param, 16);
            assert(be32(v, 8) == sender && be32(v, 12) == receiver);
            Some((sender, receiver))
        } else {
            None
        };
        Ok(Param::ReconfigResponse { reconfig_response_sequence_number: resp, result, next_tsns })
    } else if t >= 0x8000 {
        Ok(Param::Unrecognized { param_type: t, value: copy_bytes(raw_param, 4, len) })
    } else {
        Err(Error::ErrParamTypeUnhandled)
    }
}

/// Reading back what `marshal` writes for a well-formed parameter gives that
/// parameter.
#[verifier::rlimit(60)]
pub proof fn lemma_param_round_trip(m: ParamModel)
    requires
        well_formed(m),
    ensures
        parse_param(param_bytes(m)) == Ok::<ParamModel, Error>(m),
{
    let v = value_bytes(m);
    let t = type_code(m);
    let hl = u16_bytes((v.len() + 4) as u16);
    let s = param_bytes(m);
    lemma_be16_of_bytes(t, Seq::empty(), hl + v);
    assert(Seq::empty() + u16_bytes(t) + (hl + v) =~= s);
    lemma_be16_of_bytes((v.len() + 4) as u16, u16_bytes(t), v);
    assert(s.subrange(4, s.len() as int) =~= v);
    match m {
        ParamModel::RequestedHmacAlgorithm(a) => {
            lemma_u16s_round_trip(a);
        },
        ParamModel::OutgoingResetRequest { req_seq, resp_seq, last_tsn, sids } => {
            let tail = bytes_of_u16s(sids);
            lemma_u16s_round_trip(sids);
            lemma_be32_of_bytes(
                req_seq,
                Seq::empty(),
                u32_bytes(resp_seq) + u32_bytes(last_tsn) + tail,
            );
            assert(Seq::empty() + u32_bytes(req_seq) + (u32_bytes(resp_seq) + u32_bytes(last_tsn)
                + tail) =~= v);
            lemma_be32_of_bytes(resp_seq, u32_bytes(req_seq), u32_bytes(last_tsn) + tail);
            assert(u32_bytes(req_seq) + u32_bytes(resp_seq) + (u32_bytes(last_tsn) + tail) =~= v);
            lemma_be32_of_bytes(last_tsn, u32_bytes(req_seq) + u32_bytes(resp_seq), tail);
            assert(v.subrange(12, v.len() as int) =~= tail);
        },
        ParamModel::ReconfigResponse { resp_seq, result, next } => {
            let rest: Seq<u8> = match next {
                Some(n) => u32_bytes(n.0) + u32_bytes(n.1),
                None => Seq::empty(),
            };
            lemma_be32_of_bytes(resp_seq, Seq::empty(), u32_bytes(result) + rest);
            assert(Seq::empty() + u32_bytes(resp_seq) + (u32_bytes(result) + rest) =~= v);
            lemma_be32_of_bytes(result, u32_bytes(resp_seq), rest);
            assert(u32_bytes(resp_seq) + u32_bytes(result) + rest =~= v);
            if let Some(n) = next {
                let head = u32_bytes(resp_seq) + u32_bytes(result);
                lemma_be32_of_bytes(n.0, head, u32_bytes(n.1));
                assert(head + u32_bytes(n.0) + u32_bytes(n.1) =~= v);
                lemma_be32_of_bytes(n.1, head + u32_bytes(n.0), Seq::empty());
                assert(head + u32_bytes(n.0) + u32_bytes(n.1) + Seq::empty() =~= v);
            }
        },
        _ => {},
    }
}

/// Bytes that parse as a parameter are written back as the bytes its length
/// field covers: up to three pad bytes after them are all that is dropped,
/// and the parameter read is well-formed.
pub proof fn lemma_param_bytes_reproduced(s: Seq<u8>)
    requires
        parse_param(s) is Ok,
        s.len() >= 4,
        be16(s, 2) <= s.len() <= be16(s, 2) + 3,
    ensures
        well_formed(parse_param(s)->Ok_0),
        param_bytes(parse_param(s)->Ok_0) == s.subrange(0, be16(s, 2) as int),
{
    let m = parse_param(s)->Ok_0;
    let len = be16(s, 2) as int;
    let t = be16(s, 0);
    let v = s.subrange(4, len);
    assert(parse_value(t, v) == Ok::<ParamModel, Error>(m));
    lemma_u16_bytes_of_be16(s, 0);
    lemma_u16_bytes_of_be16(s, 2);
    assert(type_code(m) == t);
    match m {
        ParamModel::RequestedHmacAlgorithm(a) => {
            lemma_bytes_of_u16s_of(v);
        },
        ParamModel::OutgoingResetRequest { req_seq, resp_seq, last_tsn, sids } => {
            let tail = v.subrange(12, v.len() as int);
            lemma_bytes_of_u16s_of(tail);
            lemma_u32_bytes_of_be32(v, 0);
            lemma_u32_bytes_of_be32(v, 4);
            lemma_u32_bytes_of_be32(v, 8);
            assert(value_bytes(m) =~= v);
        },
        ParamModel::ReconfigResponse { resp_seq, result, next } => {
            lemma_u32_bytes_of_be32(v, 0);
            lemma_u32_bytes_of_be32(v, 4);
            if v.len() == 16 {
                lemma_u32_bytes_of_be32(v, 8);
                lemma_u32_bytes_of_be32(v, 12);
            }
            assert(value_bytes(m) =~= v);
        },
        _ => {},
    }
    assert(value_bytes(m) =~= v);
    assert(param_bytes(m) =~= s.subrange(0, len));
}

} // verus!
