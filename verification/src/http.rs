use vstd::prelude::*;
use vstd::utf8::encode_utf8;

verus! {

/// A transaction of the mock mempool: its text.
#[derive(Debug)]
pub struct Tx(pub String);

/// The hash of a transaction: its text itself.
pub fn hash_tx(tx: &Tx) -> (r: String)
    ensures
        r@ == tx.0@,
{
    tx.0.clone()
}

impl Tx {
    /// The bytes of the transaction: its text in UTF-8.
    pub fn as_bytes(&self) -> (r: Vec<u8>)
        ensures
            r@ == encode_utf8(self.0@),
    {
        let bytes = self.0.as_str().as_bytes();
        vstd::slice::slice_to_vec(bytes)
    }
}

/// The decimal digits of `n`, as ASCII bytes.
pub open spec fn decimal(n: nat) -> Seq<u8>
    decreases n,
{
    if n < 10 {
        seq![(48 + n) as u8]
    } else {
        decimal(n / 10).push((48 + n % 10) as u8)
    }
}

/// Appends the decimal digits of `n`.
fn push_decimal(out: &mut Vec<u8>, n: u64)
    ensures
        final(out)@ == old(out)@ + decimal(n as nat),
    decreases n,
{
    if n >= 10 {
        push_decimal(out, n / 10);
    }
    let digit: u8 = (48 + n % 10) as u8;
    out.push(digit);
    assert(final(out)@ =~= old(out)@ + decimal(n as nat)) by {
        if n >= 10 {
            assert(decimal(n as nat) == decimal((n / 10) as nat).push(digit));
        }
    }
}

/// Appends the bytes of `bytes`.
fn push_all(out: &mut Vec<u8>, bytes: &[u8])
    ensures
        final(out)@ == old(out)@ + bytes@,
{
    let mut i: usize = 0;
    while i < bytes.len()
        invariant
            i <= bytes@.len(),
            out@ == old(out)@ + bytes@.subrange(0, i as int),
        decreases bytes@.len() - i,
    {
        out.push(bytes[i]);
        i = i + 1;
        assert(out@ =~= old(out)@ + bytes@.subrange(0, i as int));
    }
    assert(bytes@.subrange(0, i as int) =~= bytes@);
}

/// `{"pending_items": ` in ASCII.
pub open spec fn pending_items_key() -> Seq<u8> {
    seq![123u8, 34, 112, 101, 110, 100, 105, 110, 103, 95, 105, 116, 101, 109, 115, 34, 58, 32]
}

/// `, "last_item": ` in ASCII.
pub open spec fn last_item_key() -> Seq<u8> {
    seq![44u8, 32, 34, 108, 97, 115, 116, 95, 105, 116, 101, 109, 34, 58, 32]
}

/// The JSON text answered for the mempool metrics:
/// `{"pending_items": P, "last_item": L}` with the two numbers in decimal.
pub open spec fn metrics_text(pending_items: nat, last_item: nat) -> Seq<u8> {
    pending_items_key() + decimal(pending_items) + last_item_key() + decimal(last_item) + seq![125u8]
}

/// The body answered for the mempool metrics (see [`metrics_text`]).
pub fn mempool_metrics_body(pending_items: u64, last_item_timestamp: u64) -> (r: Vec<u8>)
    ensures
        r@ == metrics_text(pending_items as nat, last_item_timestamp as nat),
{
    let mut out: Vec<u8> = Vec::new();
    let open_key: [u8; 18] = [123u8, 34, 112, 101, 110, 100, 105, 110, 103, 95, 105, 116, 101, 109, 115, 34, 58, 32];
    let last_key: [u8; 15] = [44u8, 32, 34, 108, 97, 115, 116, 95, 105, 116, 101, 109, 34, 58, 32];
    assert(open_key@ =~= pending_items_key());
    assert(last_key@ =~= last_item_key());
    push_all(&mut out, &open_key);
    push_decimal(&mut out, pending_items);
    push_all(&mut out, &last_key);
    push_decimal(&mut out, last_item_timestamp);
    out.push(125u8);
    assert(out@ =~= metrics_text(pending_items as nat, last_item_timestamp as nat));
    out
}

/// An HTTP server the API service runs, built from its settings.
pub trait Endpoint {
    type Settings;
}

/// Settings of the API service: those of its server.
pub struct ApiServiceSettings<S> {
    pub server_settings: S,
}

/// The API service: it builds its server from the settings and serves.
pub struct ApiService<E: Endpoint> {
    settings: ApiServiceSettings<E::Settings>,
}

impl<E: Endpoint> ApiService<E> {
    pub closed spec fn settings_view(&self) -> ApiServiceSettings<E::Settings> {
        self.settings
    }

    /// The service with its settings.
    pub fn init(settings: ApiServiceSettings<E::Settings>) -> (s: Self)
        ensures
            s.settings_view() == settings,
    {
        ApiService { settings }
    }

    /// The settings the server is built from.
    pub fn into_server_settings(self) -> (r: E::Settings)
        ensures
            r == self.settings_view().server_settings,
    {
        self.settings.server_settings
    }
}

} // verus!
