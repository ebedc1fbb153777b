//! The fragment of the script language the indexer understands: the four
//! opcodes and the small pushes that make up pay-to-pubkey and
//! pay-to-pubkey-hash outputs, with parsing and re-assembly.

use vstd::prelude::*;

verus! {

/// Why bytes were rejected as a script, an operator or a key.
#[derive(Clone, Copy, Debug, PartialEq, Eq, Structural)]
pub enum ScriptError {
    /// No bytes where an operator was expected.
    Empty,
    /// An opcode outside the supported fragment.
    UnsupportedOpcode { opcode: u8 },
    /// A push whose announced length runs past the script's end.
    PushOverrun,
    /// A key or key hash of the wrong length.
    BadLength { len: usize },
    /// A key with a prefix byte that fits neither key form.
    BadPrefix { prefix: u8 },
    /// A well-formed script that is not one of the standard forms.
    NonStandard,
}

/// One script operator of the supported fragment.
#[derive(Clone, Debug)]
pub enum Operator {
    DUP,
    HASH160,
    EQUALVERIFY,
    CHECKSIG,
    PUSHBYTES { bytes: Vec<u8> },
}

/// The opcodes the fragment accepts: the four operators and direct pushes of
/// 1 to 0x4b bytes.
pub open spec fn spec_opcode_supported(b: u8) -> bool {
    b == 0x76 || b == 0xa9 || b == 0x88 || b == 0xac || (1 <= b <= 0x4b)
}

impl Operator {
    /// A push carries between 1 and 0x4b bytes; the plain operators carry
    /// nothing.
    pub open spec fn wf(&self) -> bool {
        match *self {
            Operator::PUSHBYTES { bytes } => 1 <= bytes@.len() <= 0x4b,
            _ => true,
        }
    }

    /// Encoded length: one opcode byte, plus the pushed bytes.
    pub open spec fn spec_size(&self) -> int {
        match *self {
            Operator::PUSHBYTES { bytes } => 1 + bytes@.len() as int,
            _ => 1int,
        }
    }

    /// The encoding: the opcode byte, or the push length followed by the
    /// pushed bytes.
    pub open spec fn spec_encoding(&self) -> Seq<u8> {
        match *self {
            Operator::DUP => seq![0x76u8],
            Operator::HASH160 => seq![0xa9u8],
            Operator::EQUALVERIFY => seq![0x88u8],
            Operator::CHECKSIG => seq![0xacu8],
            Operator::PUSHBYTES { bytes } => seq![bytes@.len() as u8] + bytes@,
        }
    }

    pub fn size(&self) -> (r: usize)
        requires
            self.wf(),
        ensures
            r == self.spec_size(),
    {
        match self {
            Operator::PUSHBYTES { bytes } => 1 + bytes.len(),
            _ => 1,
        }
    }

    /// Append this operator's encoding.
    pub fn write_to(&self, buf: &mut Vec<u8>)
        requires
            self.wf(),
        ensures
            final(buf)@ == old(buf)@ + self.spec_encoding(),
    {
        match self {
            Operator::DUP => {
                buf.push(0x76);
            },
            Operator::HASH160 => {
                buf.push(0xa9);
            },
            Operator::EQUALVERIFY => {
                buf.push(0x88);
            },
            Operator::CHECKSIG => {
                buf.push(0xac);
            },
            Operator::PUSHBYTES { bytes } => {
                let n = bytes.len();
                buf.push(n as u8);
                let mut i: usize = 0;
                while i < n
                    invariant
                        0 <= i <= n,
                        n == bytes@.len(),
                        buf@ == old(buf)@ + seq![n as u8] + bytes@.subrange(0, i as int),
                    decreases n - i,
                {
                    buf.push(bytes[i]);
                    proof {
                        assert(bytes@.subrange(0, i + 1) =~= bytes@.subrange(0, i as int).push(
                            bytes@[i as int],
                        ));
                        assert(buf@ =~= old(buf)@ + seq![n as u8] + bytes@.subrange(0, i + 1));
                    }
                    i = i + 1;
                }
                proof {
                    assert(bytes@.subrange(0, n as int) =~= bytes@);
                }
            },
        }
        proof {
            assert(buf@ =~= old(buf)@ + self.spec_encoding());
        }
    }

    /// Read the operator at the head of `script`.
    pub fn parse(script: &[u8]) -> (r: Result<Operator, ScriptError>)
        ensures
            match r {
                Ok(op) => {
                    &&& script@.len() > 0
                    &&& spec_opcode_supported(script@[0])
                    &&& op.wf()
                    &&& op.spec_size() <= script@.len()
                    &&& op.spec_encoding() == script@.subrange(0, op.spec_size())
                },
                Err(e) => {
                    &&& (script@.len() == 0 || !spec_opcode_supported(script@[0]) || (1
                        <= script@[0] <= 0x4b && 1 + script@[0] > script@.len()))
                    &&& e == (if script@.len() == 0 {
                        ScriptError::Empty
                    } else if !spec_opcode_supported(script@[0]) {
                        (ScriptError::UnsupportedOpcode { opcode: script@[0] })
                    } else {
                        ScriptError::PushOverrun
                    })
                },
            },
    {
        if script.len() == 0 {
            return Err(ScriptError::Empty);
        }
        let opcode = script[0];
        if opcode == 0x76 {
            proof {
                assert(Operator::DUP.spec_encoding() =~= script@.subrange(0, 1));
            }
            Ok(Operator::DUP)
        } else if opcode == 0xa9 {
            proof {
                assert(Operator::HASH160.spec_encoding() =~= script@.subrange(0, 1));
            }
            Ok(Operator::HASH160)
        } else if opcode == 0x88 {
            proof {
                assert(Operator::EQUALVERIFY.spec_encoding() =~= script@.subrange(0, 1));
            }
            Ok(Operator::EQUALVERIFY)
        } else if opcode == 0xac {
            proof {
                assert(Operator::CHECKSIG.spec_encoding() =~= script@.subrange(0, 1));
            }
            Ok(Operator::CHECKSIG)
        } else if 1 <= opcode && opcode <= 0x4b {
            let length = opcode as usize;
            if 1 + length > script.len() {
                return Err(ScriptError::PushOverrun);
            }
            let mut bytes: Vec<u8> = Vec::new();
            let mut i: usize = 0;
            while i < length
                invariant
                    0 <= i <= length,
                    1 + length <= script@.len(),
                    bytes@ == script@.subrange(1, 1 + i as int),
                decreases length - i,
            {
                bytes.push(script[1 + i]);
                proof {
                    assert(script@.subrange(1, 1 + (i + 1 as int)) =~= script@.subrange(
                        1,
                        1 + i as int,
                    ).push(script@[1 + i]));
                }
                i = i + 1;
            }
            let op = Operator::PUSHBYTES { bytes };
            proof {
                assert(op.spec_encoding() =~= script@.subrange(0, op.spec_size()));
            }
            Ok(op)
        } else {
            Err(ScriptError::UnsupportedOpcode { opcode })
        }
    }
}

/// The encoded size of the operator at the head of `s`.
pub open spec fn spec_op_size_at(s: Seq<u8>) -> int
    recommends
        s.len() > 0,
{
    if 1 <= s[0] <= 0x4b {
        1 + s[0]
    } else {
        1
    }
}

/// Whether `s` is a run of supported operators with nothing left over.
pub open spec fn spec_script_parsable(s: Seq<u8>) -> bool
    decreases s.len(),
{
    if s.len() == 0 {
        true
    } else if !spec_opcode_supported(s[0]) {
        false
    } else if spec_op_size_at(s) > s.len() {
        false
    } else {
        spec_script_parsable(s.skip(spec_op_size_at(s)))
    }
}

/// The concatenated encoding of a run of operators.
pub open spec fn spec_assembly_encoding(ops: Seq<Operator>) -> Seq<u8>
    decreases ops.len(),
{
    if ops.len() == 0 {
        Seq::empty()
    } else {
        spec_assembly_encoding(ops.drop_last()) + ops.last().spec_encoding()
    }
}

/// A script decomposed into its operators.
#[derive(Clone, Debug)]
pub struct Assembly {
    pub operators: Vec<Operator>,
}

impl Assembly {
    pub open spec fn wf(&self) -> bool {
        forall|i: int| 0 <= i < self.operators@.len() ==> (#[trigger] self.operators@[i]).wf()
    }

    /// The bytes this assembly encodes to.
    pub open spec fn spec_encoding(&self) -> Seq<u8> {
        spec_assembly_encoding(self.operators@)
    }

    /// Total encoded size.
    pub fn size(&self) -> (r: usize)
        requires
            self.wf(),
            self.spec_encoding().len() <= usize::MAX,
        ensures
            r == self.spec_encoding().len(),
    {
        let n = self.operators.len();
        let mut total: usize = 0;
        let mut i: usize = 0;
        while i < n
            invariant
                0 <= i <= n,
                n == self.operators@.len(),
                self.wf(),
                self.spec_encoding().len() <= usize::MAX,
                total == spec_assembly_encoding(self.operators@.subrange(0, i as int)).len(),
            decreases n - i,
        {
            proof {
                assert(self.operators@.subrange(0, i + 1).drop_last() =~= self.operators@.subrange(
                    0,
                    i as int,
                ));
                assert(self.operators@.subrange(0, i + 1).last() == self.operators@[i as int]);
                lemma_assembly_encoding_prefix_len(self.operators@, i + 1);
            }
            total = total + self.operators[i].size();
            i = i + 1;
        }
        proof {
            assert(self.operators@.subrange(0, n as int) =~= self.operators@);
        }
        total
    }

    /// Decompose a whole script into operators.
    pub fn parse(script: &[u8]) -> (r: Result<Assembly, ScriptError>)
        ensures
            match r {
                Ok(a) => {
                    &&& spec_script_parsable(script@)
                    &&& a.wf()
                    &&& a.spec_encoding() == script@
                },
                Err(_) => !spec_script_parsable(script@),
            },
    {
        let n = script.len();
        let mut operators: Vec<Operator> = Vec::new();
        let mut pos: usize = 0;
        proof {
            assert(script@.skip(0) =~= script@);
            assert(spec_assembly_encoding(operators@) =~= script@.subrange(0, 0));
        }
        while pos < n
            invariant
                0 <= pos <= n,
                n == script@.len(),
                spec_script_parsable(script@) == spec_script_parsable(
                    script@.skip(pos as int),
                ),
                forall|i: int| 0 <= i < operators@.len() ==> (#[trigger] operators@[i]).wf(),
                spec_assembly_encoding(operators@) == script@.subrange(0, pos as int),
            decreases n - pos,
        {
            let op = match Operator::parse_at(script, pos) {
                Ok(op) => op,
                Err(e) => {
                    return Err(e);
                },
            };
            let sz = op.size();
            proof {
                let rest = script@.skip(pos as int);
                assert(rest.len() == n - pos);
                assert(rest[0] == script@[pos as int]);
                assert(spec_op_size_at(rest) == op.spec_size());
                assert(rest.skip(op.spec_size()) =~= script@.skip(pos + op.spec_size()));
                assert(operators@.push(op).drop_last() =~= operators@);
                assert(spec_assembly_encoding(operators@.push(op)) =~= script@.subrange(
                    0,
                    pos + op.spec_size(),
                ));
            }
            operators.push(op);
            pos = pos + sz;
        }
        proof {
            assert(script@.skip(n as int) =~= Seq::<u8>::empty());
            assert(script@.subrange(0, n as int) =~= script@);
        }
        Ok(Assembly { operators })
    }

    /// Re-assemble the script's bytes.
    pub fn to_bytes(&self) -> (r: Vec<u8>)
        requires
            self.wf(),
            self.spec_encoding().len() <= usize::MAX,
        ensures
            r@ == self.spec_encoding(),
    {
        let n = self.operators.len();
        let mut buf: Vec<u8> = Vec::new();
        let mut i: usize = 0;
        while i < n
            invariant
                0 <= i <= n,
                n == self.operators@.len(),
                self.wf(),
                buf@ == spec_assembly_encoding(self.operators@.subrange(0, i as int)),
            decreases n - i,
        {
            proof {
                assert(self.operators@.subrange(0, i + 1).drop_last() =~= self.operators@.subrange(
                    0,
                    i as int,
                ));
                assert(self.operators@.subrange(0, i + 1).last() == self.operators@[i as int]);
            }
            self.operators[i].write_to(&mut buf);
            i = i + 1;
        }
        proof {
            assert(self.operators@.subrange(0, n as int) =~= self.operators@);
        }
        buf
    }
}

/// A public key as it appears in a pay-to-pubkey script.
#[derive(Clone, Copy, Debug)]
pub enum PublicKey {
    Compressed { bytes: [u8; 33] },
    Uncompressed { bytes: [u8; 65] },
}

impl PublicKey {
    /// Accept 33 bytes as a compressed key; its prefix byte must be 2 or 3.
    pub fn parse_compressed(bytes: &[u8; 33]) -> (r: Result<PublicKey, ScriptError>)
        ensures
            match r {
                Ok(pk) => (bytes[0] == 2 || bytes[0] == 3) && pk == (PublicKey::Compressed {
                    bytes: *bytes,
                }),
                Err(e) => bytes[0] != 2 && bytes[0] != 3 && e == (ScriptError::BadPrefix {
                    prefix: bytes[0],
                }),
            },
    {
        let prefix = bytes[0];
        if prefix == 2 || prefix == 3 {
            Ok(PublicKey::Compressed { bytes: *bytes })
        } else {
            Err(ScriptError::BadPrefix { prefix })
        }
    }

    /// Accept 65 bytes as an uncompressed key; its prefix byte must be 4.
    pub fn parse_uncompressed(bytes: &[u8; 65]) -> (r: Result<PublicKey, ScriptError>)
        ensures
            match r {
                Ok(pk) => bytes[0] == 4 && pk == (PublicKey::Uncompressed { bytes: *bytes }),
                Err(e) => bytes[0] != 4 && e == (ScriptError::BadPrefix { prefix: bytes[0] }),
            },
    {
        let prefix = bytes[0];
        if prefix == 4 {
            Ok(PublicKey::Uncompressed { bytes: *bytes })
        } else {
            Err(ScriptError::BadPrefix { prefix })
        }
    }

    /// Accept a byte run as a key by its length alone: 33 bytes are a
    /// compressed key, 65 an uncompressed one.
    pub fn parse(bytes: &[u8]) -> (r: Result<PublicKey, ScriptError>)
        ensures
            match r {
                Ok(pk) => match pk {
                    PublicKey::Compressed { bytes: b } => bytes@.len() == 33 && b@ == bytes@,
                    PublicKey::Uncompressed { bytes: b } => bytes@.len() == 65 && b@ == bytes@,
                },
                Err(e) => bytes@.len() != 33 && bytes@.len() != 65 && e == (ScriptError::BadLength {
                    len: bytes@.len() as usize,
                }),
            },
    {
        let n = bytes.len();
        if n == 33 {
            let mut b: [u8; 33] = [0u8; 33];
            let mut i: usize = 0;
            while i < 33
                invariant
                    0 <= i <= 33,
                    bytes@.len() == 33,
                    forall|j: int| 0 <= j < i ==> b[j] == bytes@[j],
                decreases 33 - i,
            {
                b[i] = bytes[i];
                i = i + 1;
            }
            proof {
                assert(b@ =~= bytes@);
            }
            Ok(PublicKey::Compressed { bytes: b })
        } else if n == 65 {
            let mut b: [u8; 65] = [0u8; 65];
            let mut i: usize = 0;
            while i < 65
                invariant
                    0 <= i <= 65,
                    bytes@.len() == 65,
                    forall|j: int| 0 <= j < i ==> b[j] == bytes@[j],
                decreases 65 - i,
            {
                b[i] = bytes[i];
                i = i + 1;
            }
            proof {
                assert(b@ =~= bytes@);
            }
            Ok(PublicKey::Uncompressed { bytes: b })
        } else {
            Err(ScriptError::BadLength { len: n })
        }
    }
}

/// The 20-byte hash of a public key, as a pay-to-pubkey-hash script carries
/// it.
#[derive(Clone, Copy, Debug)]
pub struct PublicKeyHash {
    pub bytes: [u8; 20],
}

impl PublicKeyHash {
    /// Accept exactly 20 bytes as a key hash.
    pub fn parse(bytes: &[u8]) -> (r: Result<PublicKeyHash, ScriptError>)
        ensures
            match r {
                Ok(kh) => bytes@.len() == 20 && kh.bytes@ == bytes@,
                Err(e) => bytes@.len() != 20 && e == (ScriptError::BadLength {
                    len: bytes@.len() as usize,
                }),
            },
    {
        let n = bytes.len();
        if n != 20 {
            return Err(ScriptError::BadLength { len: n });
        }
        let mut b: [u8; 20] = [0u8; 20];
        let mut i: usize = 0;
        while i < 20
            invariant
                0 <= i <= 20,
                bytes@.len() == 20,
                forall|j: int| 0 <= j < i ==> b[j] == bytes@[j],
            decreases 20 - i,
        {
            b[i] = bytes[i];
            i = i + 1;
        }
        proof {
            assert(b@ =~= bytes@);
        }
        Ok(PublicKeyHash { bytes: b })
    }
}

/// A script of one of the two standard forms the indexer classifies.
#[derive(Clone, Copy, Debug)]
pub enum StandardScript {
    P2PK { pubkey: PublicKey },
    P2PKH { pubkey_hash: PublicKeyHash },
}

/// `ops` is `<push key> CHECKSIG` with a key-sized push.
pub open spec fn spec_is_p2pk(ops: Seq<Operator>) -> bool {
    &&& ops.len() == 2
    &&& ops[0] matches Operator::PUSHBYTES { bytes } && (bytes@.len() == 33 || bytes@.len() == 65)
    &&& ops[1] is CHECKSIG
}

/// `ops` is `DUP HASH160 <push hash> EQUALVERIFY CHECKSIG` with a 20-byte
/// push.
pub open spec fn spec_is_p2pkh(ops: Seq<Operator>) -> bool {
    &&& ops.len() == 5
    &&& ops[0] is DUP
    &&& ops[1] is HASH160
    &&& ops[2] matches Operator::PUSHBYTES { bytes } && bytes@.len() == 20
    &&& ops[3] is EQUALVERIFY
    &&& ops[4] is CHECKSIG
}

impl StandardScript {
    /// Classify an assembly as one of the standard forms.
    pub fn classify(assembly: &Assembly) -> (r: Result<StandardScript, ScriptError>)
        ensures
            match r {
                Ok(ss) => match ss {
                    StandardScript::P2PK { pubkey } => {
                        &&& spec_is_p2pk(assembly.operators@)
                        &&& match (assembly.operators@[0], pubkey) {
                            (
                                Operator::PUSHBYTES { bytes },
                                PublicKey::Compressed { bytes: b },
                            ) => b@ == bytes@,
                            (
                                Operator::PUSHBYTES { bytes },
                                PublicKey::Uncompressed { bytes: b },
                            ) => b@ == bytes@,
                            _ => false,
                        }
                    },
                    StandardScript::P2PKH { pubkey_hash } => {
                        &&& spec_is_p2pkh(assembly.operators@)
                        &&& match assembly.operators@[2] {
                            Operator::PUSHBYTES { bytes } => pubkey_hash.bytes@ == bytes@,
                            _ => false,
                        }
                    },
                },
                Err(_) => !spec_is_p2pk(assembly.operators@) && !spec_is_p2pkh(
                    assembly.operators@,
                ),
            },
    {
        let n = assembly.operators.len();
        if n == 2 {
            let is_push = match &assembly.operators[0] {
                Operator::PUSHBYTES { bytes: _ } => true,
                _ => false,
            };
            let is_checksig = match &assembly.operators[1] {
                Operator::CHECKSIG => true,
                _ => false,
            };
            if is_push && is_checksig {
                match &assembly.operators[0] {
                    Operator::PUSHBYTES { bytes } => {
                        match PublicKey::parse(bytes.as_slice()) {
                            Ok(pubkey) => Ok(StandardScript::P2PK { pubkey }),
                            Err(e) => Err(e),
                        }
                    },
                    _ => Err(ScriptError::NonStandard),
                }
            } else {
                Err(ScriptError::NonStandard)
            }
        } else if n == 5 {
            let shape = match (
                &assembly.operators[0],
                &assembly.operators[1],
                &assembly.operators[3],
                &assembly.operators[4],
            ) {
                (
                    Operator::DUP,
                    Operator::HASH160,
                    Operator::EQUALVERIFY,
                    Operator::CHECKSIG,
                ) => true,
                _ => false,
            };
            if shape {
                match &assembly.operators[2] {
                    Operator::PUSHBYTES { bytes } => {
                        match PublicKeyHash::parse(bytes.as_slice()) {
                            Ok(pubkey_hash) => Ok(StandardScript::P2PKH { pubkey_hash }),
                            Err(e) => Err(e),
                        }
                    },
                    _ => Err(ScriptError::NonStandard),
                }
            } else {
                Err(ScriptError::NonStandard)
            }
        } else {
            Err(ScriptError::NonStandard)
        }
    }
}

/// A prefix of an assembly encodes no more bytes than the whole.
proof fn lemma_assembly_encoding_prefix_len(ops: Seq<Operator>, i: int)
    requires
        0 <= i <= ops.len(),
    ensures
        spec_assembly_encoding(ops.subrange(0, i)).len() <= spec_assembly_encoding(ops).len(),
    decreases ops.len() - i,
{
    if i == ops.len() {
        assert(ops.subrange(0, i) =~= ops);
    } else {
        lemma_assembly_encoding_prefix_len(ops, i + 1);
        assert(ops.subrange(0, i + 1).drop_last() =~= ops.subrange(0, i));
    }
}

impl Operator {
    /// Read the operator at `pos` of `script`.
    fn parse_at(script: &[u8], pos: usize) -> (r: Result<Operator, ScriptError>)
        requires
            pos < script@.len(),
        ensures
            match r {
                Ok(op) => {
                    &&& script@.len() - pos > 0
                    &&& spec_opcode_supported(script@[pos as int])
                    &&& op.wf()
                    &&& op.spec_size() <= script@.len() - pos
                    &&& op.spec_encoding() == script@.subrange(pos as int, pos + op.spec_size())
                },
                Err(_) => !spec_script_parsable(script@.skip(pos as int)),
            },
    {
        let n = script.len();
        let sub_len = n - pos;
        proof {
            assert(script@.skip(pos as int)[0] == script@[pos as int]);
        }
        let opcode = script[pos];
        if opcode == 0x76 {
            proof {
                assert(Operator::DUP.spec_encoding() =~= script@.subrange(pos as int, pos + 1));
            }
            Ok(Operator::DUP)
        } else if opcode == 0xa9 {
            proof {
                assert(Operator::HASH160.spec_encoding() =~= script@.subrange(pos as int, pos + 1));
            }
            Ok(Operator::HASH160)
        } else if opcode == 0x88 {
            proof {
                assert(Operator::EQUALVERIFY.spec_encoding() =~= script@.subrange(
                    pos as int,
                    pos + 1,
                ));
            }
            Ok(Operator::EQUALVERIFY)
        } else if opcode == 0xac {
            proof {
                assert(Operator::CHECKSIG.spec_encoding() =~= script@.subrange(pos as int, pos + 1));
            }
            Ok(Operator::CHECKSIG)
        } else if 1 <= opcode && opcode <= 0x4b {
            let length = opcode as usize;
            if length > sub_len - 1 {
                proof {
                    let rest = script@.skip(pos as int);
                    assert(spec_op_size_at(rest) > rest.len());
                }
                return Err(ScriptError::PushOverrun);
            }
            let mut bytes: Vec<u8> = Vec::new();
            let mut i: usize = 0;
            while i < length
                invariant
                    0 <= i <= length,
                    pos + 1 + length <= n,
                    n == script@.len(),
                    bytes@ == script@.subrange(pos + 1, pos + 1 + i as int),
                decreases length - i,
            {
                bytes.push(script[pos + 1 + i]);
                proof {
                    assert(script@.subrange(pos + 1, pos + 1 + (i + 1 as int)) =~= script@.subrange(
                        pos + 1,
                        pos + 1 + i as int,
                    ).push(script@[pos + 1 + i]));
                }
                i = i + 1;
            }
            let op = Operator::PUSHBYTES { bytes };
            proof {
                assert(op.spec_encoding() =~= script@.subrange(pos as int, pos + op.spec_size()));
            }
            Ok(op)
        } else {
            proof {
                assert(!spec_opcode_supported(script@.skip(pos as int)[0]));
            }
            Err(ScriptError::UnsupportedOpcode { opcode })
        }
    }
}

} // verus!
