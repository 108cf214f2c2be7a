//! The dictionary of the kinds of cube.

use crate::io::reader::CubeReader;
use crate::io::writer::{utf8_len, CubeWriter, STRING_MAX};
use crate::util::{IoErrorKind, IoResult, VioResult};
use vstd::prelude::*;

verus! {

/// The identifier of [`CubeDict`].
pub const PK_LOAD_CUBE_DICT: u16 = 0x0101;

/// One kind of cube: its number and its name.
#[derive(Debug)]
pub struct CubeDef {
    pub id: u32,
    pub name: String,
}

/// A [`CubeDef`] by value.
pub struct CubeDefView {
    pub id: u32,
    pub name: Seq<char>,
}

impl View for CubeDef {
    type V = CubeDefView;

    open spec fn view(&self) -> CubeDefView {
        CubeDefView { id: self.id, name: self.name@ }
    }
}

/// The first `size` entries of `defs` are what the dictionary carries.
#[derive(Debug)]
pub struct CubeDict {
    pub size: u32,
    pub defs: Vec<CubeDef>,
}

/// A [`CubeDict`] by value.
pub struct CubeDictView {
    pub size: u32,
    pub defs: Seq<CubeDefView>,
}

impl View for CubeDict {
    type V = CubeDictView;

    open spec fn view(&self) -> CubeDictView {
        CubeDictView { size: self.size, defs: self.defs@.map_values(|def: CubeDef| def@) }
    }
}

/// The entries on the wire, one after the other: the identifier of each
/// kind, then its name.
pub open spec fn defs_bytes(defs: Seq<CubeDefView>) -> Seq<u8>
    decreases defs.len(),
{
    if defs.len() == 0 {
        Seq::empty()
    } else {
        defs_bytes(defs.drop_last()) + crate::io::endian::be_bytes(defs.last().id as nat, 4)
            + crate::io::writer::string_bytes(defs.last().name)
    }
}

/// One entry, and what follows it.
pub open spec fn parse_def(view: crate::io::reader::ReaderView) -> Result<
    (CubeDefView, crate::io::reader::ReaderView),
    IoErrorKind,
> {
    match view.take_bytes(4) {
        None => Err(IoErrorKind::UnexpectedEof),
        Some((id, after_id)) => match after_id.take_string() {
            Err(kind) => Err(kind),
            Ok((name, next)) => Ok(
                (CubeDefView { id: crate::io::endian::be_value(id) as u32, name }, next),
            ),
        },
    }
}

/// `count` entries, and what follows them.
pub open spec fn parse_defs(view: crate::io::reader::ReaderView, count: nat) -> Result<
    (Seq<CubeDefView>, crate::io::reader::ReaderView),
    IoErrorKind,
>
    decreases count,
{
    if count == 0 {
        Ok((Seq::empty(), view))
    } else {
        match parse_def(view) {
            Err(kind) => Err(kind),
            Ok((def, after)) => match parse_defs(after, (count - 1) as nat) {
                Err(kind) => Err(kind),
                Ok((defs, next)) => Ok((seq![def] + defs, next)),
            },
        }
    }
}

/// What is parsed after `done`: the entries that `rest` gives, behind those
/// already at hand.
pub open spec fn parsed_after(
    done: Seq<CubeDefView>,
    rest: Result<(Seq<CubeDefView>, crate::io::reader::ReaderView), IoErrorKind>,
) -> Result<(Seq<CubeDefView>, crate::io::reader::ReaderView), IoErrorKind> {
    match rest {
        Err(kind) => Err(kind),
        Ok((defs, next)) => Ok((done + defs, next)),
    }
}

/// Entries leave no more to read than there was before them.
pub proof fn lemma_parse_defs_advances(view: crate::io::reader::ReaderView, count: nat)
    ensures
        parse_defs(view, count) matches Ok((_, next)) ==> next.rest.len() <= view.rest.len()
            && next.pending == view.pending,
    decreases count,
{
    if count > 0 {
        match parse_def(view) {
            Err(_) => {},
            Ok((_, after)) => {
                lemma_parse_defs_advances(after, (count - 1) as nat);
            },
        }
    }
}

/// A dictionary leaves less to read than there was before it.
pub proof fn lemma_parse_advances(view: crate::io::reader::ReaderView)
    ensures
        CubeDictView::parse(view) matches Ok((_, next)) ==> next.rest.len() < view.rest.len()
            && next.pending == view.pending,
{
    match view.take_bytes(4) {
        None => {},
        Some((size, after)) => {
            lemma_parse_defs_advances(after, crate::io::endian::be_value(size));
        },
    }
}

impl CubeDictView {
    /// Whether the entries are there, and each name fits behind its length
    /// prefix.
    pub open spec fn fits(self) -> bool {
        forall|i: int|
            0 <= i < self.size ==> vstd::utf8::encode_utf8(#[trigger] self.defs[i].name).len()
                <= STRING_MAX
    }

    /// The identifier in two bytes, the number of entries in four, then the
    /// entries.
    pub open spec fn wire(self) -> Seq<u8> {
        crate::io::endian::be_bytes(PK_LOAD_CUBE_DICT as nat, 2) + crate::io::endian::be_bytes(
            self.size as nat,
            4,
        ) + defs_bytes(self.defs.take(self.size as int))
    }

    /// The signal that follows its identifier.
    pub open spec fn parse(view: crate::io::reader::ReaderView) -> Result<
        (CubeDictView, crate::io::reader::ReaderView),
        IoErrorKind,
    > {
        match view.take_bytes(4) {
            None => Err(IoErrorKind::UnexpectedEof),
            Some((size, after_size)) => match parse_defs(
                after_size,
                crate::io::endian::be_value(size),
            ) {
                Err(kind) => Err(kind),
                Ok((defs, next)) => Ok(
                    (CubeDictView { size: crate::io::endian::be_value(size) as u32, defs }, next),
                ),
            },
        }
    }
}

impl CubeDict {
    /// Writes the signal, or nothing where a name is too long for its length
    /// prefix.
    pub fn write(&self, writer: &mut CubeWriter) -> (r: VioResult)
        requires
            old(writer).wf(),
            old(writer).aligned(),
            self.size <= self.defs.len(),
        ensures
            final(writer).wf(),
            final(writer).aligned(),
            self@.fits() ==> r is Ok && final(writer)@ == old(writer)@.push_bytes(self@.wire()),
            !self@.fits() ==> *final(writer) == *old(writer) && (r matches Err(e) && e.kind
                == IoErrorKind::Other),
    {
        let mut checked: u32 = 0;
        while checked < self.size
            invariant
                checked <= self.size <= self.defs.len(),
                *writer == *old(writer),
                writer.wf(),
                writer.aligned(),
                forall|i: int|
                    0 <= i < checked ==> vstd::utf8::encode_utf8(#[trigger] self@.defs[i].name).len()
                        <= STRING_MAX,
            decreases self.size - checked,
        {
            if utf8_len(self.defs[checked as usize].name.as_str()) > STRING_MAX {
                assert(self@.defs[checked as int].name == self.defs[checked as int].name@);
                return crate::util::io_error("String is too long");
            }
            assert(self@.defs[checked as int].name == self.defs[checked as int].name@);
            checked += 1;
        }
        writer.write_uint16(PK_LOAD_CUBE_DICT)?;
        writer.write_uint32(self.size)?;
        let ghost head = crate::io::endian::be_bytes(PK_LOAD_CUBE_DICT as nat, 2)
            + crate::io::endian::be_bytes(self.size as nat, 4);
        assert(writer@.bytes =~= old(writer)@.bytes + head);
        let mut i: u32 = 0;
        while i < self.size
            invariant
                i <= self.size <= self.defs.len(),
                self@.fits(),
                writer.wf(),
                writer.aligned(),
                writer@.pending == old(writer)@.pending,
                writer@.bytes == old(writer)@.bytes + head + defs_bytes(self@.defs.take(i as int)),
            decreases self.size - i,
        {
            let def = &self.defs[i as usize];
            proof {
                assert(self@.defs[i as int] == def@);
                assert(self@.defs[i as int].name == def.name@);
                assert(self@.defs.take(i + 1).drop_last() =~= self@.defs.take(i as int));
            }
            writer.write_uint32(def.id)?;
            writer.write_string(def.name.as_str())?;
            assert(writer@.bytes =~= old(writer)@.bytes + head + defs_bytes(
                self@.defs.take(i + 1),
            ));
            i += 1;
        }
        assert(writer@.bytes =~= old(writer)@.bytes + self@.wire());
        Ok(())
    }

    /// Reads the signal that follows its identifier; on an error the reader
    /// stays where it was.
    pub fn read(reader: &mut CubeReader) -> (r: IoResult<CubeDict>)
        requires
            old(reader).wf(),
            old(reader).aligned(),
        ensures
            final(reader).wf(),
            final(reader).aligned(),
            match CubeDictView::parse(old(reader)@) {
                Ok((signal, next)) => (r matches Ok(read) && read@ == signal) && final(reader)@
                    == next,
                Err(kind) => *final(reader) == *old(reader) && (r matches Err(e) && e.kind == kind),
            },
    {
        let start = *reader;
        match Self::read_fields(reader) {
            Ok(signal) => Ok(signal),
            Err(e) => {
                *reader = start;
                Err(e)
            },
        }
    }

    fn read_fields(reader: &mut CubeReader) -> (r: IoResult<CubeDict>)
        requires
            old(reader).wf(),
            old(reader).aligned(),
        ensures
            final(reader).wf(),
            final(reader).aligned(),
            match CubeDictView::parse(old(reader)@) {
                Ok((signal, next)) => (r matches Ok(read) && read@ == signal) && final(reader)@
                    == next,
                Err(kind) => r matches Err(e) && e.kind == kind,
            },
    {
        let size = reader.read_uint32()?;
        let ghost first = reader@;
        let ghost whole = CubeDictView::parse(old(reader)@);
        let mut defs: Vec<CubeDef> = Vec::new();
        let mut i: u32 = 0;
        assert(defs@.map_values(|def: CubeDef| def@) + Seq::<CubeDefView>::empty() =~= Seq::<
            CubeDefView,
        >::empty());
        while i < size
            invariant
                i <= size,
                reader.wf(),
                reader.aligned(),
                defs@.len() == i,
                whole == (match parse_defs(first, size as nat) {
                    Err(kind) => Err(kind),
                    Ok((defs, next)) => Ok((CubeDictView { size, defs }, next)),
                }),
                whole == CubeDictView::parse(old(reader)@),
                parse_defs(first, size as nat) == parsed_after(
                    defs@.map_values(|def: CubeDef| def@),
                    parse_defs(reader@, (size - i) as nat),
                ),
            decreases size - i,
        {
            let ghost before = reader@;
            let ghost done = defs@.map_values(|def: CubeDef| def@);
            let id = reader.read_uint32()?;
            let name = reader.read_string()?;
            let def = CubeDef { id, name };
            proof {
                let (parsed, after) = parse_def(before)->Ok_0;
                assert(parsed == def@);
                assert(after == reader@);
                match parse_defs(after, (size - i - 1) as nat) {
                    Ok((more, next)) => {
                        assert(done + (seq![parsed] + more) =~= done.push(parsed) + more);
                    },
                    Err(_) => {},
                }
                assert(defs@.push(def).map_values(|def: CubeDef| def@) =~= done.push(parsed));
            }
            defs.push(def);
            i += 1;
        }
        assert(defs@.map_values(|def: CubeDef| def@) + Seq::<CubeDefView>::empty()
            =~= defs@.map_values(|def: CubeDef| def@));
        Ok(CubeDict { size, defs })
    }
}

} // verus!
