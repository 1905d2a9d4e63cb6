use vstd::prelude::*;
use vstd::string::*;
use crate::hex::{bytes_of_hex, from_hex, hex_of, is_hex, to_hex};

verus! {

/// Number of bytes in a key identifier.
pub const IDENTIFIER_SIZE: usize = 10;

/// Identifier of a derived key: a short digest of its public key.
#[derive(Clone, Copy, Debug)]
pub struct Identifier(pub [u8; IDENTIFIER_SIZE]);

impl Identifier {
    /// The identifier's bytes.
    pub open spec fn bytes(&self) -> Seq<u8> {
        self.0@
    }

    /// Lower-case hex text of the identifier, as used for ledger keys.
    pub fn to_hex(&self) -> (r: String)
        ensures
            r@ == hex_of(self.bytes()),
    {
        to_hex(self.0.as_slice())
    }

    /// Reads an identifier from its hex text.
    pub fn from_hex(s: &str) -> (r: Result<Identifier, Error>)
        ensures
            r is Ok <==> is_hex(s@) && bytes_of_hex(s@).len() == IDENTIFIER_SIZE,
            r is Ok ==> r->Ok_0.bytes() == bytes_of_hex(s@),
            r is Err ==> r->Err_0 is Format,
    {
        match from_hex(s) {
            Some(v) => {
                if v.len() != IDENTIFIER_SIZE {
                    return Err(Error::Format(String::from_str("Invalid identifier length")));
                }
                let a: [u8; IDENTIFIER_SIZE] = [v[0], v[1], v[2], v[3], v[4], v[5], v[6], v[7], v[8], v[9]];
                assert(a@ =~= v@);
                Ok(Identifier(a))
            },
            None => Err(Error::Format(String::from_str("Invalid hex"))),
        }
    }
}

/// Lexicographic comparison of byte strings: -1, 0 or 1.
pub open spec fn bytes_cmp(a: Seq<u8>, b: Seq<u8>) -> int
    decreases a.len(),
{
    if a.len() == 0 || b.len() == 0 {
        if a.len() == b.len() {
            0
        } else if a.len() == 0 {
            -1
        } else {
            1
        }
    } else if a[0] < b[0] {
        -1
    } else if a[0] > b[0] {
        1
    } else {
        bytes_cmp(a.drop_first(), b.drop_first())
    }
}

/// Comparison is zero exactly between equal byte strings.
pub proof fn lemma_bytes_cmp_zero(a: Seq<u8>, b: Seq<u8>)
    ensures
        bytes_cmp(a, b) == 0 <==> a == b,
    decreases a.len(),
{
    if a.len() > 0 && b.len() > 0 {
        lemma_bytes_cmp_zero(a.drop_first(), b.drop_first());
        if a.drop_first() == b.drop_first() && a[0] == b[0] {
            assert(a =~= seq![a[0]] + a.drop_first());
            assert(b =~= seq![b[0]] + b.drop_first());
        }
        if a == b {
            assert(a.drop_first() == b.drop_first());
        }
    } else if a.len() == 0 && b.len() == 0 {
        assert(a =~= b);
    }
}

/// Swapping the arguments flips the comparison.
pub proof fn lemma_bytes_cmp_flip(a: Seq<u8>, b: Seq<u8>)
    ensures
        bytes_cmp(a, b) == -bytes_cmp(b, a),
    decreases a.len(),
{
    if a.len() > 0 && b.len() > 0 {
        lemma_bytes_cmp_flip(a.drop_first(), b.drop_first());
    }
}

/// The order is transitive.
pub proof fn lemma_bytes_cmp_trans(a: Seq<u8>, b: Seq<u8>, c: Seq<u8>)
    requires
        bytes_cmp(a, b) < 0,
        bytes_cmp(b, c) < 0,
    ensures
        bytes_cmp(a, c) < 0,
    decreases a.len(),
{
    if a.len() > 0 && b.len() > 0 && c.len() > 0 {
        if a[0] == b[0] && b[0] == c[0] {
            lemma_bytes_cmp_trans(a.drop_first(), b.drop_first(), c.drop_first());
        }
    }
}

impl Identifier {
    /// Orders identifiers by their bytes.
    pub fn compare(&self, o: &Identifier) -> (r: i8)
        ensures
            r as int == bytes_cmp(self.bytes(), o.bytes()),
    {
        let mut i: usize = 0;
        assert(self.0@.skip(0) =~= self.0@);
        assert(o.0@.skip(0) =~= o.0@);
        while i < IDENTIFIER_SIZE
            invariant
                i <= IDENTIFIER_SIZE,
                self.0@.len() == IDENTIFIER_SIZE,
                o.0@.len() == IDENTIFIER_SIZE,
                bytes_cmp(self.0@, o.0@) == bytes_cmp(self.0@.skip(i as int), o.0@.skip(i as int)),
            decreases IDENTIFIER_SIZE - i,
        {
            let x = self.0[i];
            let y = o.0[i];
            assert(self.0@.skip(i as int)[0] == x);
            assert(o.0@.skip(i as int)[0] == y);
            if x < y {
                return -1;
            } else if x > y {
                return 1;
            }
            assert(self.0@.skip(i as int).drop_first() =~= self.0@.skip(i + 1));
            assert(o.0@.skip(i as int).drop_first() =~= o.0@.skip(i + 1));
            i = i + 1;
        }
        0
    }
}

impl PartialEq for Identifier {
    fn eq(&self, o: &Identifier) -> (r: bool) {
        let mut i: usize = 0;
        while i < IDENTIFIER_SIZE
            invariant
                i <= IDENTIFIER_SIZE,
                self.0@.len() == IDENTIFIER_SIZE,
                o.0@.len() == IDENTIFIER_SIZE,
                forall|k: int| 0 <= k < i ==> self.0@[k] == o.0@[k],
            decreases IDENTIFIER_SIZE - i,
        {
            if self.0[i] != o.0[i] {
                return false;
            }
            i = i + 1;
        }
        assert(self.0@ =~= o.0@);
        true
    }
}

impl vstd::std_specs::cmp::PartialEqSpecImpl for Identifier {
    open spec fn obeys_eq_spec() -> bool {
        true
    }

    open spec fn eq_spec(&self, o: &Identifier) -> bool {
        self.bytes() == o.bytes()
    }
}

impl Eq for Identifier {
}

/// Status of an output tracked by the wallet. `Locked` means it was used to
/// build a transaction whose broadcast or mining is not yet confirmed.
#[derive(Clone, Copy, Debug, PartialEq, Eq, Structural)]
pub enum OutputStatus {
    Unconfirmed,
    Unspent,
    Immature,
    Locked,
    Spent,
}

impl OutputStatus {
    /// The status's name, as shown to users and written to disk.
    pub fn to_string(&self) -> (r: String)
        ensures
            r@ == match *self {
                OutputStatus::Unconfirmed => "Unconfirmed"@,
                OutputStatus::Unspent => "Unspent"@,
                OutputStatus::Immature => "Immature"@,
                OutputStatus::Locked => "Locked"@,
                OutputStatus::Spent => "Spent"@,
            },
    {
        match *self {
            OutputStatus::Unconfirmed => String::from_str("Unconfirmed"),
            OutputStatus::Unspent => String::from_str("Unspent"),
            OutputStatus::Immature => String::from_str("Immature"),
            OutputStatus::Locked => String::from_str("Locked"),
            OutputStatus::Spent => String::from_str("Spent"),
        }
    }
}

/// An output tracked by the wallet: enough to rebuild its commitment once the
/// root private key is known.
#[derive(Clone, Copy, Debug)]
pub struct OutputData {
    /// Root key that the key of this output is derived from
    pub root_key_id: Identifier,
    /// Derived key of this output
    pub key_id: Identifier,
    /// Derivation index of `key_id` under `root_key_id`
    pub n_child: u32,
    /// Value of the output, needed to rebuild the commitment
    pub value: u64,
    /// Current status of the output
    pub status: OutputStatus,
    /// Height of the output
    pub height: u64,
    /// Height before which the output cannot be spent
    pub lock_height: u64,
    /// Whether it may be spent with zero confirmations (change we made)
    pub zero_ok: bool,
}

impl OutputData {
    /// The output with its status set to `Locked`.
    pub open spec fn locked(self) -> OutputData {
        OutputData { status: OutputStatus::Locked, ..self }
    }

    /// Locks the output so that no other transaction uses it.
    pub fn lock(&mut self)
        ensures
            *final(self) == old(self).locked(),
    {
        self.status = OutputStatus::Locked;
    }
}

/// Wallet errors.
#[derive(Debug, PartialEq, Eq)]
pub enum Error {
    /// Not enough unspent value for the amount asked
    NotEnoughFunds(u64),
    /// The two parties disagree on the fee
    FeeDispute { sender_fee: u64, recipient_fee: u64 },
    /// Key derivation failed
    Keychain(String),
    /// The transaction did not validate
    Transaction(String),
    /// A cryptographic operation failed
    Secp(String),
    /// Reading, writing or locking the wallet files failed
    WalletData(String),
    /// An error in the format of the JSON structures exchanged by the wallet
    Format(String),
    /// Error when contacting a node through its API
    Node(String),
}

/// Wallet settings.
#[derive(Debug, Clone)]
pub struct WalletConfig {
    /// Whether to run a wallet
    pub enable_wallet: bool,
    /// Address on which this wallet's API listens
    pub api_http_addr: String,
    /// Address of a node whose API checks transaction inputs during a send
    pub check_node_api_http_addr: String,
    /// Directory of the wallet files
    pub data_file_dir: String,
}

impl Default for WalletConfig {
    fn default() -> (r: WalletConfig)
        ensures
            !r.enable_wallet,
            r.api_http_addr@ == "127.0.0.1:13416"@,
            r.check_node_api_http_addr@ == "http://127.0.0.1:13413"@,
            r.data_file_dir@ == "."@,
    {
        WalletConfig {
            enable_wallet: false,
            api_http_addr: String::from_str("127.0.0.1:13416"),
            check_node_api_http_addr: String::from_str("http://127.0.0.1:13413"),
            data_file_dir: String::from_str("."),
        }
    }
}

/// Fees of a block, from which the coinbase amount is computed.
#[derive(Debug, Clone)]
pub struct BlockFees {
    pub fees: u64,
    pub height: u64,
    /// Key to use for the coinbase output, if the caller picked one
    pub key_id: Option<Identifier>,
}

impl BlockFees {
    /// The key picked for the coinbase output, if any.
    pub fn key_id(&self) -> (r: Option<Identifier>)
        ensures
            r == self.key_id,
    {
        self.key_id
    }
}

/// Response to a request to build a coinbase output: hex payloads passed
/// through as they were produced.
#[derive(Debug, Clone)]
pub struct CbData {
    pub output: String,
    pub kernel: String,
    pub key_id: String,
}

/// What a wallet can be asked to receive.
#[derive(Debug, Clone)]
pub enum WalletReceiveRequest {
    Coinbase(BlockFees),
    PartialTransaction(String),
    Finalize(String),
}

} // verus!
