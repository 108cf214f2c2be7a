//! The client asks to log in.

use crate::io::reader::CubeReader;
use crate::io::writer::{utf8_len, CubeWriter, STRING_MAX};
use crate::util::{IoErrorKind, IoResult, VioResult};
use vstd::prelude::*;
use vstd::string::StringSliceAdditionalSpecFns;

verus! {

/// The identifier of [`LoginRequest`].
pub const LL_LOGIN_REQUEST: u8 = 0x21;

/// Who asks to log in, with which version of the protocol, and from what
/// kind of system.
#[derive(Debug)]
pub struct LoginRequest {
    pub major_protocol: u32,
    pub minor_protocol: u32,
    pub username: String,
    pub user_id: [u8; 20],
    pub language: String,
    pub sys_info: String,
}

/// A [`LoginRequest`] by value.
pub struct LoginRequestView {
    pub major_protocol: u32,
    pub minor_protocol: u32,
    pub username: Seq<char>,
    pub user_id: Seq<u8>,
    pub language: Seq<char>,
    pub sys_info: Seq<char>,
}

impl View for LoginRequest {
    type V = LoginRequestView;

    open spec fn view(&self) -> LoginRequestView {
        LoginRequestView {
            major_protocol: self.major_protocol,
            minor_protocol: self.minor_protocol,
            username: self.username@,
            user_id: self.user_id@,
            language: self.language@,
            sys_info: self.sys_info@,
        }
    }
}

impl LoginRequestView {
    /// Whether each string fits behind its length prefix.
    pub open spec fn fits(self) -> bool {
        &&& vstd::utf8::encode_utf8(self.username).len() <= STRING_MAX
        &&& vstd::utf8::encode_utf8(self.language).len() <= STRING_MAX
        &&& vstd::utf8::encode_utf8(self.sys_info).len() <= STRING_MAX
    }

    /// The fields in the order of the wire, after the identifier.
    pub open spec fn payload(self) -> Seq<u8> {
        crate::io::endian::be_bytes(self.major_protocol as nat, 4) + crate::io::endian::be_bytes(
            self.minor_protocol as nat,
            4,
        ) + crate::io::writer::string_bytes(self.username) + self.user_id
            + crate::io::writer::string_bytes(self.language) + crate::io::writer::string_bytes(
            self.sys_info,
        )
    }

    /// The identifier, then the fields.
    pub open spec fn wire(self) -> Seq<u8> {
        seq![LL_LOGIN_REQUEST] + self.payload()
    }

    /// The signal that follows its identifier.
    pub open spec fn parse(view: crate::io::reader::ReaderView) -> Result<
        (LoginRequestView, crate::io::reader::ReaderView),
        IoErrorKind,
    > {
        match view.take_bytes(8) {
            None => Err(IoErrorKind::UnexpectedEof),
            Some((versions, after_versions)) => match after_versions.take_string() {
                Err(kind) => Err(kind),
                Ok((username, after_name)) => match after_name.take_bytes(20) {
                    None => Err(IoErrorKind::UnexpectedEof),
                    Some((user_id, after_id)) => match after_id.take_string() {
                        Err(kind) => Err(kind),
                        Ok((language, after_language)) => match after_language.take_string() {
                            Err(kind) => Err(kind),
                            Ok((sys_info, next)) => Ok(
                                (
                                    LoginRequestView {
                                        major_protocol: crate::io::endian::be_value(
                                            versions.subrange(0, 4),
                                        ) as u32,
                                        minor_protocol: crate::io::endian::be_value(
                                            versions.subrange(4, 8),
                                        ) as u32,
                                        username,
                                        user_id,
                                        language,
                                        sys_info,
                                    },
                                    next,
                                ),
                            ),
                        },
                    },
                },
            },
        }
    }
}

impl LoginRequest {
    /// Writes the signal, or nothing where a string is too long for its
    /// length prefix.
    pub fn write(&self, writer: &mut CubeWriter) -> (r: VioResult)
        requires
            old(writer).wf(),
            old(writer).aligned(),
        ensures
            final(writer).wf(),
            final(writer).aligned(),
            self@.fits() ==> r is Ok && final(writer)@ == old(writer)@.push_bytes(self@.wire()),
            !self@.fits() ==> *final(writer) == *old(writer) && (r matches Err(e) && e.kind
                == IoErrorKind::Other),
    {
        if utf8_len(self.username.as_str()) > STRING_MAX || utf8_len(self.language.as_str())
            > STRING_MAX || utf8_len(self.sys_info.as_str()) > STRING_MAX {
            return crate::util::io_error("String is too long");
        }
        writer.write_uint8(LL_LOGIN_REQUEST)?;
        writer.write_uint32(self.major_protocol)?;
        writer.write_uint32(self.minor_protocol)?;
        writer.write_string(self.username.as_str())?;
        writer.write_bytes(self.user_id.as_slice())?;
        writer.write_string(self.language.as_str())?;
        writer.write_string(self.sys_info.as_str())?;
        assert(writer@.bytes =~= old(writer)@.bytes + self@.wire());
        Ok(())
    }

    /// Reads the signal that follows its identifier; on an error the reader
    /// stays where it was.
    pub fn read(reader: &mut CubeReader) -> (r: IoResult<Self>)
        requires
            old(reader).wf(),
            old(reader).aligned(),
        ensures
            final(reader).wf(),
            final(reader).aligned(),
            match LoginRequestView::parse(old(reader)@) {
                Ok((signal, next)) => (r matches Ok(read) && read@ == signal) && final(reader)@
                    == next,
                Err(kind) => *final(reader) == *old(reader) && (r matches Err(e) && e.kind == kind),
            },
    {
        let start = *reader;
        match Self::read_fields(reader) {
            Ok(signal) => Ok(signal),
            Err(e) => {
                *reader = start;
                Err(e)
            },
        }
    }

    fn read_fields(reader: &mut CubeReader) -> (r: IoResult<Self>)
        requires
            old(reader).wf(),
            old(reader).aligned(),
        ensures
            final(reader).wf(),
            final(reader).aligned(),
            match LoginRequestView::parse(old(reader)@) {
                Ok((signal, next)) => (r matches Ok(read) && read@ == signal) && final(reader)@
                    == next,
                Err(kind) => r matches Err(e) && e.kind == kind,
            },
    {
        let ghost rest = reader@.rest;
        let major_protocol = reader.read_uint32()?;
        let minor_protocol = reader.read_uint32()?;
        proof {
            if rest.len() >= 8 {
                assert(rest.take(4) =~= rest.take(8).subrange(0, 4));
                assert(rest.skip(4).take(4) =~= rest.take(8).subrange(4, 8));
                assert(rest.skip(4).skip(4) =~= rest.skip(8));
            }
        }
        let username = reader.read_string()?;
        let mut user_id = [0u8; 20];
        reader.read_bytes(&mut user_id)?;
        let language = reader.read_string()?;
        let sys_info = reader.read_string()?;
        Ok(Self { major_protocol, minor_protocol, username, user_id, language, sys_info })
    }
}

} // verus!
