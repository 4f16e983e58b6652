use vstd::prelude::*;
use vstd::utf8::encode_utf8;

use crate::encode::{
    map_header, mp_write_array_len, mp_write_bin, mp_write_bool, mp_write_ext_meta, mp_write_i16,
    mp_write_i32, mp_write_i64, mp_write_i8, mp_write_map_len, mp_write_nfix, mp_write_nil,
    mp_write_pfix, mp_write_sint, mp_write_str, mp_write_u16, mp_write_u32, mp_write_u64,
    mp_write_u8, mp_write_uint, token_bytes, token_fits, write_f32_bits, write_f64_bits, Token,
};
use crate::decode::{decode_all, models, parse_values};
use crate::error::TreasureDataError;
use crate::gzip::{
    gunzip, gunzip_of, gunzip_ok, gz_emitted, gz_finish, gz_input, gz_sink_new, gz_take, gz_write_all,
    GzSink,
};
use crate::value::Value;

verus! {

/// A row's declared and added element counts did not match; `None` when no row was open.
#[derive(Debug, Clone, PartialEq)]
pub struct UnmatchElementNumsError(pub Option<(u32, u32)>);

/// Why writing a chunk failed.
#[derive(Debug, PartialEq)]
pub enum TableImportChunkError {
    /// The compressor could not take or finish the bytes.
    IOError(String),
    /// The row arity was broken.
    UnmatchElementNums(UnmatchElementNumsError),
    UnexpectedError(String),
    /// A value has no MessagePack encoding of the kind asked for.
    MsgpackValueWriteError(String),
}

/// One key/value pair written into a row.
pub struct Field {
    pub key: Seq<char>,
    pub token: Token,
}

/// A pair whose key and value the writer accepts.
pub open spec fn field_fits(f: Field) -> bool {
    token_fits(Token::Str(f.key)) && token_fits(f.token)
}

/// A row: its declared number of pairs and the pairs written so far.
pub struct RowModel {
    pub declared: nat,
    pub fields: Seq<Field>,
}

/// The bytes of one pair: the key as a string, then the value.
pub open spec fn field_bytes(f: Field) -> Seq<u8> {
    token_bytes(Token::Str(f.key)) + token_bytes(f.token)
}

pub open spec fn fields_bytes(fs: Seq<Field>) -> Seq<u8>
    decreases fs.len(),
{
    if fs.len() == 0 {
        seq![]
    } else {
        fields_bytes(fs.drop_last()) + field_bytes(fs.last())
    }
}

/// The bytes of a row: a map header for the declared count, then the pairs.
pub open spec fn row_bytes(r: RowModel) -> Seq<u8> {
    map_header(r.declared) + fields_bytes(r.fields)
}

/// The uncompressed bytes of a run of rows.
pub open spec fn rows_bytes(rs: Seq<RowModel>) -> Seq<u8>
    decreases rs.len(),
{
    if rs.len() == 0 {
        seq![]
    } else {
        rows_bytes(rs.drop_last()) + row_bytes(rs.last())
    }
}

/// `rs` with `f` added to its last row.
pub open spec fn with_field(rs: Seq<RowModel>, f: Field) -> Seq<RowModel> {
    rs.update(
        rs.len() - 1,
        RowModel { declared: rs.last().declared, fields: rs.last().fields.push(f) },
    )
}

proof fn lemma_with_field_bytes(rs: Seq<RowModel>, f: Field)
    requires
        rs.len() > 0,
    ensures
        rows_bytes(with_field(rs, f)) == rows_bytes(rs) + field_bytes(f),
{
    let ns = with_field(rs, f);
    assert(ns.drop_last() =~= rs.drop_last());
    assert(ns.last().fields.drop_last() =~= rs.last().fields);
    assert(rows_bytes(ns) =~= rows_bytes(rs) + field_bytes(f));
}

proof fn lemma_new_row_bytes(rs: Seq<RowModel>, n: nat)
    ensures
        rows_bytes(rs.push(RowModel { declared: n, fields: seq![] })) == rows_bytes(rs) + map_header(n),
{
    let ns = rs.push(RowModel { declared: n, fields: seq![] });
    assert(ns.drop_last() =~= rs);
    assert(fields_bytes(Seq::<Field>::empty()) =~= seq![]);
    assert(rows_bytes(ns) =~= rows_bytes(rs) + map_header(n));
}

/// A finished chunk: the gzip-compressed bytes of its rows.
pub struct TableImportReadableChunk {
    pub data: Vec<u8>,
}

impl TableImportReadableChunk {
    /// Decompresses the chunk and decodes its rows, each a MessagePack map.
    pub fn decode_rows(&self) -> (r: Result<Vec<Value>, TreasureDataError>)
        ensures
            !gunzip_ok(self.data@) ==> (r matches Err(TreasureDataError::IoError(_))),
            gunzip_ok(self.data@) ==> match parse_values(gunzip_of(self.data@), 0) {
                Ok(vs) => r matches Ok(x) && models(x@) == vs,
                Err(e) => r == Err::<Vec<Value>, TreasureDataError>(
                    TreasureDataError::MsgpackDecodeError(e),
                ),
            },
    {
        match gunzip(self.data.as_slice()) {
            Err(m) => Err(TreasureDataError::IoError(m)),
            Ok(plain) => match decode_all(plain.as_slice()) {
                Ok(vs) => Ok(vs),
                Err(x) => Err(TreasureDataError::MsgpackDecodeError(x)),
            },
        }
    }
}

/// A chunk being written: rows of key/value pairs, each row with a number of pairs fixed
/// when it starts, encoded as MessagePack maps into a gzip stream.
pub struct TableImportWritableChunk {
    elms_in_row: Option<(u32, u32)>,
    write: GzSink,
    rows: Ghost<Seq<RowModel>>,
}

impl TableImportWritableChunk {
    /// The rows written so far.
    pub closed spec fn rows(&self) -> Seq<RowModel> {
        self.rows@
    }

    /// The current row's declared and added counts; `None` before the first row.
    pub closed spec fn counts(&self) -> Option<(u32, u32)> {
        self.elms_in_row
    }

    /// The bytes handed to the compressor so far.
    pub closed spec fn encoded(&self) -> Seq<u8> {
        gz_input(self.write)
    }

    /// The compressed bytes taken out so far with `take_compressed`.
    pub closed spec fn emitted(&self) -> Seq<u8> {
        gz_emitted(self.write)
    }

    pub closed spec fn wf(&self) -> bool {
        &&& forall|i: int| 0 <= i < self.rows@.len() - 1 ==> (#[trigger] self.rows@[i]).fields.len()
            == self.rows@[i].declared
        &&& forall|i: int| 0 <= i < self.rows@.len() ==> (#[trigger] self.rows@[i]).declared
            < 4294967296
        &&& forall|i: int, j: int|
            0 <= i < self.rows@.len() && 0 <= j < self.rows@[i].fields.len() ==> field_fits(
                #[trigger] self.rows@[i].fields[j],
            )
        &&& match self.elms_in_row {
            None => self.rows@.len() == 0,
            Some((c, a)) => {
                &&& self.rows@.len() > 0
                &&& self.rows@.last().declared == c
                &&& self.rows@.last().fields.len() == a
                &&& a <= c
            },
        }
    }

    /// The compressor holds exactly the encoding of the rows.
    pub open spec fn faithful(&self) -> bool {
        self.encoded() == rows_bytes(self.rows())
    }

    /// The current row, if any, has all its declared pairs.
    pub open spec fn row_complete(&self) -> bool {
        self.counts() matches Some((c, a)) ==> c == a
    }

    /// A row is open and has room for another pair.
    pub open spec fn has_room(&self) -> bool {
        self.counts() matches Some((c, a)) && a < c
    }

    /// The arity error that a pair written now would meet.
    pub open spec fn room_error(&self) -> UnmatchElementNumsError {
        match self.counts() {
            None => UnmatchElementNumsError(None),
            Some((c, a)) => UnmatchElementNumsError(
                Some((c, if a == u32::MAX { 0 } else { (a + 1) as u32 })),
            ),
        }
    }

    /// What writing the pair `key`/`token` does: it fails on arity without a change; a key
    /// too long to encode is a codec error; otherwise, when the compressor takes the bytes,
    /// the pair is added to the current row.
    pub open spec fn field_written(
        old: Self,
        new: Self,
        r: Result<(), TableImportChunkError>,
        key: Seq<char>,
        token: Token,
    ) -> bool {
        &&& new.wf()
        &&& new.emitted() == old.emitted()
        &&& old.has_room() && token_fits(Token::Str(key)) && token_fits(token) ==> r is Ok
        &&& !old.has_room() ==> r == Err::<(), TableImportChunkError>(
            TableImportChunkError::UnmatchElementNums(old.room_error()),
        ) && new == old
        &&& old.has_room() && encode_utf8(key).len() >= 4294967296 ==> (r matches Err(
            TableImportChunkError::MsgpackValueWriteError(_),
        )) && new == old
        &&& old.has_room() ==> match r {
            Ok(()) => {
                &&& new.rows() == with_field(old.rows(), Field { key, token })
                &&& new.encoded() == old.encoded() + field_bytes(Field { key, token })
                &&& new.counts() == Some(((old.counts()->0).0, ((old.counts()->0).1 + 1) as u32))
                &&& old.faithful() ==> new.faithful()
            },
            Err(e) => {
                &&& e is IOError || e is MsgpackValueWriteError
                &&& new.rows() == old.rows()
                &&& new.counts() == old.counts()
            },
        }
    }

    /// What a well-formed chunk holds of its rows: all but the last are complete, and
    /// every pair was one the writer accepts.
    pub proof fn lemma_rows_shape(&self)
        requires
            self.wf(),
        ensures
            forall|i: int| 0 <= i < self.rows().len() - 1 ==> (#[trigger] self.rows()[i]).fields.len()
                == self.rows()[i].declared,
            forall|i: int| 0 <= i < self.rows().len() ==> (#[trigger] self.rows()[i]).declared
                < 4294967296,
            forall|i: int, j: int|
                0 <= i < self.rows().len() && 0 <= j < self.rows()[i].fields.len() ==> field_fits(
                    #[trigger] self.rows()[i].fields[j],
                ),
            self.row_complete() && self.rows().len() > 0 ==> self.rows().last().fields.len()
                == self.rows().last().declared,
    {
    }

    /// A row that has all its `n` declared pairs takes no more: a further pair is refused,
    /// with the arity error carrying `n` and one more than it, and the row is complete, so the
    /// next row may start.
    pub proof fn lemma_full_row_refuses(&self, n: u32)
        requires
            self.wf(),
            self.counts() == Some((n, n)),
        ensures
            !self.has_room(),
            self.row_complete(),
            n < u32::MAX ==> self.room_error() == UnmatchElementNumsError(
                Some((n, (n + 1) as u32)),
            ),
    {
    }

    /// A chunk with no rows.
    pub fn new() -> (r: Result<TableImportWritableChunk, TableImportChunkError>)
        ensures
            r matches Ok(c) && c.wf() && c.rows() == Seq::<RowModel>::empty() && c.faithful()
                && c.counts() == None::<(u32, u32)> && c.emitted() == Seq::<u8>::empty(),
    {
        let ghost none: Seq<RowModel> = Seq::empty();
        Ok(TableImportWritableChunk { elms_in_row: None, write: gz_sink_new(), rows: Ghost(none) })
    }

    /// Fails unless the current row, if any, has all its declared pairs.
    fn check_elm_number(&self) -> (r: Result<(), TableImportChunkError>)
        ensures
            r is Ok <==> self.row_complete(),
            r matches Err(e) ==> e == TableImportChunkError::UnmatchElementNums(
                UnmatchElementNumsError(self.counts()),
            ),
    {
        match self.elms_in_row {
            Some((capacity, added)) => {
                if capacity != added {
                    return Err(
                        TableImportChunkError::UnmatchElementNums(
                            UnmatchElementNumsError(Some((capacity, added))),
                        ),
                    );
                }
            },
            None => {},
        }
        Ok(())
    }

    /// Starts a row of `len` pairs, once the current row is complete.
    pub fn next_row(&mut self, len: u32) -> (r: Result<(), TableImportChunkError>)
        requires
            old(self).wf(),
        ensures
            final(self).wf(),
            final(self).emitted() == old(self).emitted(),
            old(self).row_complete() ==> r is Ok,
            !old(self).row_complete() ==> r == Err::<(), TableImportChunkError>(
                TableImportChunkError::UnmatchElementNums(UnmatchElementNumsError(old(self).counts())),
            ) && *final(self) == *old(self),
            old(self).row_complete() ==> match r {
                Ok(()) => {
                    &&& final(self).rows() == old(self).rows().push(
                        RowModel { declared: len as nat, fields: seq![] },
                    )
                    &&& final(self).counts() == Some((len, 0u32))
                    &&& final(self).encoded() == old(self).encoded() + token_bytes(
                        Token::MapHeader(len),
                    )
                    &&& old(self).faithful() ==> final(self).faithful()
                },
                Err(e) => {
                    &&& e is IOError || e is MsgpackValueWriteError
                    &&& final(self).rows() == old(self).rows()
                    &&& final(self).counts() == old(self).counts()
                },
            },
    {
        match self.check_elm_number() {
            Err(e) => {
                return Err(e);
            },
            Ok(()) => {},
        }
        let mut tok: Vec<u8> = Vec::new();
        match mp_write_map_len(&mut tok, len) {
            Err(m) => {
                return Err(TableImportChunkError::MsgpackValueWriteError(m));
            },
            Ok(()) => {},
        }
        match gz_write_all(&mut self.write, tok.as_slice()) {
            Err(m) => {
                return Err(TableImportChunkError::IOError(m));
            },
            Ok(()) => {},
        }
        proof {
            lemma_new_row_bytes(self.rows@, len as nat);
            assert(tok@ =~= map_header(len as nat));
        }
        self.elms_in_row = Some((len, 0));
        self.rows = Ghost(self.rows@.push(RowModel { declared: len as nat, fields: seq![] }));
        Ok(())
    }

    /// Checks that a pair may be written now, and encodes its key.
    fn start_field(&self, key: &str) -> (r: Result<Vec<u8>, TableImportChunkError>)
        requires
            self.wf(),
        ensures
            !self.has_room() ==> r == Err::<Vec<u8>, TableImportChunkError>(
                TableImportChunkError::UnmatchElementNums(self.room_error()),
            ),
            self.has_room() && encode_utf8(key@).len() >= 4294967296 ==> r matches Err(
                TableImportChunkError::MsgpackValueWriteError(_),
            ),
            r matches Ok(tok) ==> self.has_room() && tok@ == token_bytes(Token::Str(key@)),
            self.has_room() && encode_utf8(key@).len() < 4294967296 ==> r is Ok,
            r matches Err(e) ==> self.has_room() ==> e is MsgpackValueWriteError,
    {
        match self.elms_in_row {
            Some((capacity, added)) => {
                if capacity <= added {
                    return Err(
                        TableImportChunkError::UnmatchElementNums(
                            UnmatchElementNumsError(Some((capacity, added.wrapping_add(1)))),
                        ),
                    );
                }
            },
            None => {
                return Err(TableImportChunkError::UnmatchElementNums(UnmatchElementNumsError(None)));
            },
        }
        if key.as_bytes().len() as u64 >= 4294967296 {
            return Err(TableImportChunkError::MsgpackValueWriteError("key too long".to_string()));
        }
        let mut tok: Vec<u8> = Vec::new();
        match mp_write_str(&mut tok, key) {
            Err(m) => Err(TableImportChunkError::MsgpackValueWriteError(m)),
            Ok(()) => {
                assert(tok@ =~= token_bytes(Token::Str(key@)));
                Ok(tok)
            },
        }
    }

    /// Hands an encoded pair to the compressor and counts it in the current row.
    fn add_field(&mut self, tok: &Vec<u8>, Ghost(f): Ghost<Field>) -> (r: Result<
        (),
        TableImportChunkError,
    >)
        requires
            old(self).wf(),
            old(self).has_room(),
            tok@ == field_bytes(f),
            field_fits(f),
        ensures
            final(self).wf(),
            final(self).emitted() == old(self).emitted(),
            r is Ok,
            match r {
                Ok(()) => {
                    &&& final(self).rows() == with_field(old(self).rows(), f)
                    &&& final(self).encoded() == old(self).encoded() + field_bytes(f)
                    &&& final(self).counts() == Some(
                        ((old(self).counts()->0).0, ((old(self).counts()->0).1 + 1) as u32),
                    )
                    &&& old(self).faithful() ==> final(self).faithful()
                },
                Err(e) => {
                    &&& e is IOError
                    &&& final(self).rows() == old(self).rows()
                    &&& final(self).counts() == old(self).counts()
                },
            },
    {
        match gz_write_all(&mut self.write, tok.as_slice()) {
            Err(m) => {
                return Err(TableImportChunkError::IOError(m));
            },
            Ok(()) => {},
        }
        proof {
            lemma_with_field_bytes(self.rows@, f);
        }
        match self.elms_in_row {
            Some((capacity, added)) => {
                self.elms_in_row = Some((capacity, added + 1));
            },
            None => {},
        }
        self.rows = Ghost(with_field(self.rows@, f));
        Ok(())
    }

    /// Writes `key`, then an array header for `len` elements, as the next pair
    /// of the current row.
    pub fn write_key_and_array_header(&mut self, key: &str, len: u32) -> (r: Result<
        (),
        TableImportChunkError,
    >)
        requires
            old(self).wf(),
        ensures
            Self::field_written(*old(self), *final(self), r, key@, Token::ArrayHeader(len)),
    {
        let mut tok = match self.start_field(key) {
            Err(e) => {
                return Err(e);
            },
            Ok(t) => t,
        };
        match mp_write_array_len(&mut tok, len) {
            Err(m) => {
                return Err(TableImportChunkError::MsgpackValueWriteError(m));
            },
            Ok(()) => {},
        }
        proof {
            assert(tok@ =~= field_bytes(Field { key: key@, token: Token::ArrayHeader(len) }));
        }
        self.add_field(&tok, Ghost(Field { key: key@, token: Token::ArrayHeader(len) }))
    }

    /// Writes `key`, then `data` as a binary string, as the next pair
    /// of the current row.
    pub fn write_key_and_bin(&mut self, key: &str, data: &[u8]) -> (r: Result<
        (),
        TableImportChunkError,
    >)
        requires
            old(self).wf(),
        ensures
            Self::field_written(*old(self), *final(self), r, key@, Token::Bin(data@)),
            old(self).has_room() && data@.len() >= 4294967296 ==> (r matches Err(
                TableImportChunkError::MsgpackValueWriteError(_),
            )) && *final(self) == *old(self),
    {
        let mut tok = match self.start_field(key) {
            Err(e) => {
                return Err(e);
            },
            Ok(t) => t,
        };
        if data.len() as u64 >= 4294967296 {
            return Err(TableImportChunkError::MsgpackValueWriteError("binary string too long".to_string()));
        }
        match mp_write_bin(&mut tok, data) {
            Err(m) => {
                return Err(TableImportChunkError::MsgpackValueWriteError(m));
            },
            Ok(()) => {},
        }
        proof {
            assert(tok@ =~= field_bytes(Field { key: key@, token: Token::Bin(data@) }));
        }
        self.add_field(&tok, Ghost(Field { key: key@, token: Token::Bin(data@) }))
    }

    /// Writes `key`, then a boolean, as the next pair
    /// of the current row.
    pub fn write_key_and_bool(&mut self, key: &str, val: bool) -> (r: Result<
        (),
        TableImportChunkError,
    >)
        requires
            old(self).wf(),
        ensures
            Self::field_written(*old(self), *final(self), r, key@, Token::Bool(val)),
    {
        let mut tok = match self.start_field(key) {
            Err(e) => {
                return Err(e);
            },
            Ok(t) => t,
        };
        match mp_write_bool(&mut tok, val) {
            Err(m) => {
                return Err(TableImportChunkError::MsgpackValueWriteError(m));
            },
            Ok(()) => {},
        }
        proof {
            assert(tok@ =~= field_bytes(Field { key: key@, token: Token::Bool(val) }));
        }
        self.add_field(&tok, Ghost(Field { key: key@, token: Token::Bool(val) }))
    }

    /// Writes `key`, then an extension header for `len` data bytes of type `typeid`, as the next pair
    /// of the current row.
    pub fn write_key_and_ext_meta(&mut self, key: &str, len: u32, typeid: i8) -> (r: Result<
        (),
        TableImportChunkError,
    >)
        requires
            old(self).wf(),
        ensures
            Self::field_written(*old(self), *final(self), r, key@, Token::ExtMeta(len, typeid)),
    {
        let mut tok = match self.start_field(key) {
            Err(e) => {
                return Err(e);
            },
            Ok(t) => t,
        };
        match mp_write_ext_meta(&mut tok, len, typeid) {
            Err(m) => {
                return Err(TableImportChunkError::MsgpackValueWriteError(m));
            },
            Ok(()) => {},
        }
        proof {
            assert(tok@ =~= field_bytes(Field { key: key@, token: Token::ExtMeta(len, typeid) }));
        }
        self.add_field(&tok, Ghost(Field { key: key@, token: Token::ExtMeta(len, typeid) }))
    }

    /// Writes `key`, then a 32-bit float, given by its bit pattern, as the next pair
    /// of the current row.
    pub fn write_key_and_f32(&mut self, key: &str, bits: u32) -> (r: Result<
        (),
        TableImportChunkError,
    >)
        requires
            old(self).wf(),
        ensures
            Self::field_written(*old(self), *final(self), r, key@, Token::F32(bits)),
    {
        let mut tok = match self.start_field(key) {
            Err(e) => {
                return Err(e);
            },
            Ok(t) => t,
        };
        write_f32_bits(&mut tok, bits);
        proof {
            assert(tok@ =~= field_bytes(Field { key: key@, token: Token::F32(bits) }));
        }
        self.add_field(&tok, Ghost(Field { key: key@, token: Token::F32(bits) }))
    }

    /// Writes `key`, then a 64-bit float, given by its bit pattern, as the next pair
    /// of the current row.
    pub fn write_key_and_f64(&mut self, key: &str, bits: u64) -> (r: Result<
        (),
        TableImportChunkError,
    >)
        requires
            old(self).wf(),
        ensures
            Self::field_written(*old(self), *final(self), r, key@, Token::F64(bits)),
    {
        let mut tok = match self.start_field(key) {
            Err(e) => {
                return Err(e);
            },
            Ok(t) => t,
        };
        write_f64_bits(&mut tok, bits);
        proof {
            assert(tok@ =~= field_bytes(Field { key: key@, token: Token::F64(bits) }));
        }
        self.add_field(&tok, Ghost(Field { key: key@, token: Token::F64(bits) }))
    }

    /// Writes `key`, then a 16-bit signed integer, as the next pair
    /// of the current row.
    pub fn write_key_and_i16(&mut self, key: &str, val: i16) -> (r: Result<
        (),
        TableImportChunkError,
    >)
        requires
            old(self).wf(),
        ensures
            Self::field_written(*old(self), *final(self), r, key@, Token::I16(val)),
    {
        let mut tok = match self.start_field(key) {
            Err(e) => {
                return Err(e);
            },
            Ok(t) => t,
        };
        match mp_write_i16(&mut tok, val) {
            Err(m) => {
                return Err(TableImportChunkError::MsgpackValueWriteError(m));
            },
            Ok(()) => {},
        }
        proof {
            assert(tok@ =~= field_bytes(Field { key: key@, token: Token::I16(val) }));
        }
        self.add_field(&tok, Ghost(Field { key: key@, token: Token::I16(val) }))
    }

    /// Writes `key`, then a 32-bit signed integer, as the next pair
    /// of the current row.
    pub fn write_key_and_i32(&mut self, key: &str, val: i32) -> (r: Result<
        (),
        TableImportChunkError,
    >)
        requires
            old(self).wf(),
        ensures
            Self::field_written(*old(self), *final(self), r, key@, Token::I32(val)),
    {
        let mut tok = match self.start_field(key) {
            Err(e) => {
                return Err(e);
            },
            Ok(t) => t,
        };
        match mp_write_i32(&mut tok, val) {
            Err(m) => {
                return Err(TableImportChunkError::MsgpackValueWriteError(m));
            },
            Ok(()) => {},
        }
        proof {
            assert(tok@ =~= field_bytes(Field { key: key@, token: Token::I32(val) }));
        }
        self.add_field(&tok, Ghost(Field { key: key@, token: Token::I32(val) }))
    }

    /// Writes `key`, then a 64-bit signed integer, as the next pair
    /// of the current row.
    pub fn write_key_and_i64(&mut self, key: &str, val: i64) -> (r: Result<
        (),
        TableImportChunkError,
    >)
        requires
            old(self).wf(),
        ensures
            Self::field_written(*old(self), *final(self), r, key@, Token::I64(val)),
    {
        let mut tok = match self.start_field(key) {
            Err(e) => {
                return Err(e);
            },
            Ok(t) => t,
        };
        match mp_write_i64(&mut tok, val) {
            Err(m) => {
                return Err(TableImportChunkError::MsgpackValueWriteError(m));
            },
            Ok(()) => {},
        }
        proof {
            assert(tok@ =~= field_bytes(Field { key: key@, token: Token::I64(val) }));
        }
        self.add_field(&tok, Ghost(Field { key: key@, token: Token::I64(val) }))
    }

    /// Writes `key`, then an 8-bit signed integer, as the next pair
    /// of the current row.
    pub fn write_key_and_i8(&mut self, key: &str, val: i8) -> (r: Result<
        (),
        TableImportChunkError,
    >)
        requires
            old(self).wf(),
        ensures
            Self::field_written(*old(self), *final(self), r, key@, Token::I8(val)),
    {
        let mut tok = match self.start_field(key) {
            Err(e) => {
                return Err(e);
            },
            Ok(t) => t,
        };
        match mp_write_i8(&mut tok, val) {
            Err(m) => {
                return Err(TableImportChunkError::MsgpackValueWriteError(m));
            },
            Ok(()) => {},
        }
        proof {
            assert(tok@ =~= field_bytes(Field { key: key@, token: Token::I8(val) }));
        }
        self.add_field(&tok, Ghost(Field { key: key@, token: Token::I8(val) }))
    }

    /// Writes `key`, then a map header for `len` pairs, as the next pair
    /// of the current row.
    pub fn write_key_and_map_len(&mut self, key: &str, len: u32) -> (r: Result<
        (),
        TableImportChunkError,
    >)
        requires
            old(self).wf(),
        ensures
            Self::field_written(*old(self), *final(self), r, key@, Token::MapHeader(len)),
    {
        let mut tok = match self.start_field(key) {
            Err(e) => {
                return Err(e);
            },
            Ok(t) => t,
        };
        match mp_write_map_len(&mut tok, len) {
            Err(m) => {
                return Err(TableImportChunkError::MsgpackValueWriteError(m));
            },
            Ok(()) => {},
        }
        proof {
            assert(tok@ =~= field_bytes(Field { key: key@, token: Token::MapHeader(len) }));
        }
        self.add_field(&tok, Ghost(Field { key: key@, token: Token::MapHeader(len) }))
    }

    /// Writes `key`, then a negative fixnum (-32 to -1), as the next pair
    /// of the current row.
    pub fn write_key_and_nfix(&mut self, key: &str, val: i8) -> (r: Result<
        (),
        TableImportChunkError,
    >)
        requires
            old(self).wf(),
        ensures
            Self::field_written(*old(self), *final(self), r, key@, Token::Nfix(val)),
            old(self).has_room() && !(-32 <= val < 0) ==> (r matches Err(
                TableImportChunkError::MsgpackValueWriteError(_),
            )) && *final(self) == *old(self),
    {
        let mut tok = match self.start_field(key) {
            Err(e) => {
                return Err(e);
            },
            Ok(t) => t,
        };
        if !(-32 <= val && val < 0) {
            return Err(TableImportChunkError::MsgpackValueWriteError("negative fixnum out of range".to_string()));
        }
        match mp_write_nfix(&mut tok, val) {
            Err(m) => {
                return Err(TableImportChunkError::MsgpackValueWriteError(m));
            },
            Ok(()) => {},
        }
        proof {
            assert(tok@ =~= field_bytes(Field { key: key@, token: Token::Nfix(val) }));
        }
        self.add_field(&tok, Ghost(Field { key: key@, token: Token::Nfix(val) }))
    }

    /// Writes `key`, then nil, as the next pair
    /// of the current row.
    pub fn write_key_and_nil(&mut self, key: &str) -> (r: Result<
        (),
        TableImportChunkError,
    >)
        requires
            old(self).wf(),
        ensures
            Self::field_written(*old(self), *final(self), r, key@, Token::Nil),
    {
        let mut tok = match self.start_field(key) {
            Err(e) => {
                return Err(e);
            },
            Ok(t) => t,
        };
        match mp_write_nil(&mut tok) {
            Err(m) => {
                return Err(TableImportChunkError::MsgpackValueWriteError(m));
            },
            Ok(()) => {},
        }
        proof {
            assert(tok@ =~= field_bytes(Field { key: key@, token: Token::Nil }));
        }
        self.add_field(&tok, Ghost(Field { key: key@, token: Token::Nil }))
    }

    /// Writes `key`, then a positive fixnum (0 to 127), as the next pair
    /// of the current row.
    pub fn write_key_and_pfix(&mut self, key: &str, val: u8) -> (r: Result<
        (),
        TableImportChunkError,
    >)
        requires
            old(self).wf(),
        ensures
            Self::field_written(*old(self), *final(self), r, key@, Token::Pfix(val)),
            old(self).has_room() && val >= 128 ==> (r matches Err(
                TableImportChunkError::MsgpackValueWriteError(_),
            )) && *final(self) == *old(self),
    {
        let mut tok = match self.start_field(key) {
            Err(e) => {
                return Err(e);
            },
            Ok(t) => t,
        };
        if val >= 128 {
            return Err(TableImportChunkError::MsgpackValueWriteError("positive fixnum out of range".to_string()));
        }
        match mp_write_pfix(&mut tok, val) {
            Err(m) => {
                return Err(TableImportChunkError::MsgpackValueWriteError(m));
            },
            Ok(()) => {},
        }
        proof {
            assert(tok@ =~= field_bytes(Field { key: key@, token: Token::Pfix(val) }));
        }
        self.add_field(&tok, Ghost(Field { key: key@, token: Token::Pfix(val) }))
    }

    /// Writes `key`, then a signed integer in its most compact form, as the next pair
    /// of the current row.
    pub fn write_key_and_sint(&mut self, key: &str, val: i64) -> (r: Result<
        (),
        TableImportChunkError,
    >)
        requires
            old(self).wf(),
        ensures
            Self::field_written(*old(self), *final(self), r, key@, Token::Sint(val)),
    {
        let mut tok = match self.start_field(key) {
            Err(e) => {
                return Err(e);
            },
            Ok(t) => t,
        };
        match mp_write_sint(&mut tok, val) {
            Err(m) => {
                return Err(TableImportChunkError::MsgpackValueWriteError(m));
            },
            Ok(()) => {},
        }
        proof {
            assert(tok@ =~= field_bytes(Field { key: key@, token: Token::Sint(val) }));
        }
        self.add_field(&tok, Ghost(Field { key: key@, token: Token::Sint(val) }))
    }

    /// Writes `key`, then a signed integer in its most compact form, as the next pair
    /// of the current row.
    pub fn write_key_and_sint_eff(&mut self, key: &str, val: i64) -> (r: Result<
        (),
        TableImportChunkError,
    >)
        requires
            old(self).wf(),
        ensures
            Self::field_written(*old(self), *final(self), r, key@, Token::Sint(val)),
    {
        let mut tok = match self.start_field(key) {
            Err(e) => {
                return Err(e);
            },
            Ok(t) => t,
        };
        match mp_write_sint(&mut tok, val) {
            Err(m) => {
                return Err(TableImportChunkError::MsgpackValueWriteError(m));
            },
            Ok(()) => {},
        }
        proof {
            assert(tok@ =~= field_bytes(Field { key: key@, token: Token::Sint(val) }));
        }
        self.add_field(&tok, Ghost(Field { key: key@, token: Token::Sint(val) }))
    }

    /// Writes `key`, then `data` as a string, as the next pair
    /// of the current row.
    pub fn write_key_and_str(&mut self, key: &str, data: &str) -> (r: Result<
        (),
        TableImportChunkError,
    >)
        requires
            old(self).wf(),
        ensures
            Self::field_written(*old(self), *final(self), r, key@, Token::Str(data@)),
            old(self).has_room() && encode_utf8(data@).len() >= 4294967296 ==> (r matches Err(
                TableImportChunkError::MsgpackValueWriteError(_),
            )) && *final(self) == *old(self),
    {
        let mut tok = match self.start_field(key) {
            Err(e) => {
                return Err(e);
            },
            Ok(t) => t,
        };
        if data.as_bytes().len() as u64 >= 4294967296 {
            return Err(TableImportChunkError::MsgpackValueWriteError("string too long".to_string()));
        }
        match mp_write_str(&mut tok, data) {
            Err(m) => {
                return Err(TableImportChunkError::MsgpackValueWriteError(m));
            },
            Ok(()) => {},
        }
        proof {
            assert(tok@ =~= field_bytes(Field { key: key@, token: Token::Str(data@) }));
        }
        self.add_field(&tok, Ghost(Field { key: key@, token: Token::Str(data@) }))
    }

    /// Writes `key`, then a 16-bit unsigned integer, as the next pair
    /// of the current row.
    pub fn write_key_and_u16(&mut self, key: &str, val: u16) -> (r: Result<
        (),
        TableImportChunkError,
    >)
        requires
            old(self).wf(),
        ensures
            Self::field_written(*old(self), *final(self), r, key@, Token::U16(val)),
    {
        let mut tok = match self.start_field(key) {
            Err(e) => {
                return Err(e);
            },
            Ok(t) => t,
        };
        match mp_write_u16(&mut tok, val) {
            Err(m) => {
                return Err(TableImportChunkError::MsgpackValueWriteError(m));
            },
            Ok(()) => {},
        }
        proof {
            assert(tok@ =~= field_bytes(Field { key: key@, token: Token::U16(val) }));
        }
        self.add_field(&tok, Ghost(Field { key: key@, token: Token::U16(val) }))
    }

    /// Writes `key`, then a 32-bit unsigned integer, as the next pair
    /// of the current row.
    pub fn write_key_and_u32(&mut self, key: &str, val: u32) -> (r: Result<
        (),
        TableImportChunkError,
    >)
        requires
            old(self).wf(),
        ensures
            Self::field_written(*old(self), *final(self), r, key@, Token::U32(val)),
    {
        let mut tok = match self.start_field(key) {
            Err(e) => {
                return Err(e);
            },
            Ok(t) => t,
        };
        match mp_write_u32(&mut tok, val) {
            Err(m) => {
                return Err(TableImportChunkError::MsgpackValueWriteError(m));
            },
            Ok(()) => {},
        }
        proof {
            assert(tok@ =~= field_bytes(Field { key: key@, token: Token::U32(val) }));
        }
        self.add_field(&tok, Ghost(Field { key: key@, token: Token::U32(val) }))
    }

    /// Writes `key`, then a 64-bit unsigned integer, as the next pair
    /// of the current row.
    pub fn write_key_and_u64(&mut self, key: &str, val: u64) -> (r: Result<
        (),
        TableImportChunkError,
    >)
        requires
            old(self).wf(),
        ensures
            Self::field_written(*old(self), *final(self), r, key@, Token::U64(val)),
    {
        let mut tok = match self.start_field(key) {
            Err(e) => {
                return Err(e);
            },
            Ok(t) => t,
        };
        match mp_write_u64(&mut tok, val) {
            Err(m) => {
                return Err(TableImportChunkError::MsgpackValueWriteError(m));
            },
            Ok(()) => {},
        }
        proof {
            assert(tok@ =~= field_bytes(Field { key: key@, token: Token::U64(val) }));
        }
        self.add_field(&tok, Ghost(Field { key: key@, token: Token::U64(val) }))
    }

    /// Writes `key`, then an 8-bit unsigned integer, as the next pair
    /// of the current row.
    pub fn write_key_and_u8(&mut self, key: &str, val: u8) -> (r: Result<
        (),
        TableImportChunkError,
    >)
        requires
            old(self).wf(),
        ensures
            Self::field_written(*old(self), *final(self), r, key@, Token::U8(val)),
    {
        let mut tok = match self.start_field(key) {
            Err(e) => {
                return Err(e);
            },
            Ok(t) => t,
        };
        match mp_write_u8(&mut tok, val) {
            Err(m) => {
                return Err(TableImportChunkError::MsgpackValueWriteError(m));
            },
            Ok(()) => {},
        }
        proof {
            assert(tok@ =~= field_bytes(Field { key: key@, token: Token::U8(val) }));
        }
        self.add_field(&tok, Ghost(Field { key: key@, token: Token::U8(val) }))
    }

    /// Writes `key`, then an unsigned integer in its most compact form, as the next pair
    /// of the current row.
    pub fn write_key_and_uint(&mut self, key: &str, val: u64) -> (r: Result<
        (),
        TableImportChunkError,
    >)
        requires
            old(self).wf(),
        ensures
            Self::field_written(*old(self), *final(self), r, key@, Token::Uint(val)),
    {
        let mut tok = match self.start_field(key) {
            Err(e) => {
                return Err(e);
            },
            Ok(t) => t,
        };
        match mp_write_uint(&mut tok, val) {
            Err(m) => {
                return Err(TableImportChunkError::MsgpackValueWriteError(m));
            },
            Ok(()) => {},
        }
        proof {
            assert(tok@ =~= field_bytes(Field { key: key@, token: Token::Uint(val) }));
        }
        self.add_field(&tok, Ghost(Field { key: key@, token: Token::Uint(val) }))
    }

    /// Takes out the compressed bytes written so far, so that they can be stored as the chunk
    /// grows; the rows are unchanged.
    pub fn take_compressed(&mut self) -> (r: Vec<u8>)
        requires
            old(self).wf(),
        ensures
            final(self).wf(),
            final(self).rows() == old(self).rows(),
            final(self).counts() == old(self).counts(),
            final(self).encoded() == old(self).encoded(),
            final(self).emitted() == old(self).emitted() + r@,
    {
        gz_take(&mut self.write)
    }

    /// Finishes the chunk, once its last row is complete: the bytes taken out before, then the
    /// bytes handed back, are one gzip stream that decompresses to exactly what was written.
    pub fn close(self) -> (r: Result<TableImportReadableChunk, TableImportChunkError>)
        requires
            self.wf(),
        ensures
            !self.row_complete() ==> r == Err::<TableImportReadableChunk, TableImportChunkError>(
                TableImportChunkError::UnmatchElementNums(UnmatchElementNumsError(self.counts())),
            ),
            self.row_complete() ==> (r matches Ok(c) && gunzip_ok(self.emitted() + c.data@)
                && gunzip_of(self.emitted() + c.data@) == self.encoded()),
    {
        match self.check_elm_number() {
            Err(e) => {
                return Err(e);
            },
            Ok(()) => {},
        }
        match gz_finish(self.write) {
            Err(m) => Err(TableImportChunkError::IOError(m)),
            Ok(data) => Ok(TableImportReadableChunk { data }),
        }
    }
}

} // verus!
