//! The proxy middleware's pure core: which role a path needs, hop-by-hop
//! header stripping, loop prevention, and the relay decision.
use vstd::prelude::*;
use crate::mesh::{MembershipView, role_reachable};
use crate::peer::{Addr, PeerMetadata, PeerModel};
use crate::roles::Role;

verus! {

/// A single HTTP header as raw bytes.
pub struct Header {
    pub name: Vec<u8>,
    pub value: Vec<u8>,
}

/// Mathematical image of a `Header`.
pub struct HeaderModel {
    pub name: Seq<u8>,
    pub value: Seq<u8>,
}

impl View for Header {
    type V = HeaderModel;

    open spec fn view(&self) -> HeaderModel {
        HeaderModel { name: self.name@, value: self.value@ }
    }
}

/// An inbound request as the middleware sees it.
pub struct Request {
    pub method: Vec<u8>,
    pub path: Vec<u8>,
    pub headers: Vec<Header>,
    pub body: Vec<u8>,
}

/// Mathematical image of a `Request`.
pub struct RequestModel {
    pub method: Seq<u8>,
    pub path: Seq<u8>,
    pub headers: Seq<HeaderModel>,
    pub body: Seq<u8>,
}

impl View for Request {
    type V = RequestModel;

    open spec fn view(&self) -> RequestModel {
        RequestModel {
            method: self.method@,
            path: self.path@,
            headers: self.headers@.map_values(|h: Header| h@),
            body: self.body@,
        }
    }
}

/// An upstream response as the middleware sees it.
pub struct Response {
    pub status: u16,
    pub headers: Vec<Header>,
    pub body: Vec<u8>,
}

/// Mathematical image of a `Response`.
pub struct ResponseModel {
    pub status: u16,
    pub headers: Seq<HeaderModel>,
    pub body: Seq<u8>,
}

impl View for Response {
    type V = ResponseModel;

    open spec fn view(&self) -> ResponseModel {
        ResponseModel {
            status: self.status,
            headers: self.headers@.map_values(|h: Header| h@),
            body: self.body@,
        }
    }
}

/// ASCII lowercase of one byte.
pub open spec fn lower_byte(b: u8) -> u8 {
    if 65 <= b <= 90 {
        (b + 32) as u8
    } else {
        b
    }
}

/// ASCII lowercase of a byte string: header names match case-insensitively.
pub open spec fn lower(s: Seq<u8>) -> Seq<u8> {
    s.map_values(|b: u8| lower_byte(b))
}

/// The bytes of the lowercase header name `connection`.
pub open spec fn connection_name() -> Seq<u8> {
    seq![99u8, 111u8, 110u8, 110u8, 101u8, 99u8, 116u8, 105u8, 111u8, 110u8]
}

/// The bytes of the lowercase header name `keep-alive`.
pub open spec fn keep_alive_name() -> Seq<u8> {
    seq![107u8, 101u8, 101u8, 112u8, 45u8, 97u8, 108u8, 105u8, 118u8, 101u8]
}

/// The bytes of the lowercase header name `proxy-authenticate`.
pub open spec fn proxy_authenticate_name() -> Seq<u8> {
    seq![112u8, 114u8, 111u8, 120u8, 121u8, 45u8, 97u8, 117u8, 116u8, 104u8, 101u8, 110u8, 116u8, 105u8, 99u8, 97u8, 116u8, 101u8]
}

/// The bytes of the lowercase header name `proxy-authorization`.
pub open spec fn proxy_authorization_name() -> Seq<u8> {
    seq![112u8, 114u8, 111u8, 120u8, 121u8, 45u8, 97u8, 117u8, 116u8, 104u8, 111u8, 114u8, 105u8, 122u8, 97u8, 116u8, 105u8, 111u8, 110u8]
}

/// The bytes of the lowercase header name `te`.
pub open spec fn te_name() -> Seq<u8> {
    seq![116u8, 101u8]
}

/// The bytes of the lowercase header name `trailers`.
pub open spec fn trailers_name() -> Seq<u8> {
    seq![116u8, 114u8, 97u8, 105u8, 108u8, 101u8, 114u8, 115u8]
}

/// The bytes of the lowercase header name `transfer-encoding`.
pub open spec fn transfer_encoding_name() -> Seq<u8> {
    seq![116u8, 114u8, 97u8, 110u8, 115u8, 102u8, 101u8, 114u8, 45u8, 101u8, 110u8, 99u8, 111u8, 100u8, 105u8, 110u8, 103u8]
}

/// The bytes of the lowercase header name `upgrade`.
pub open spec fn upgrade_name() -> Seq<u8> {
    seq![117u8, 112u8, 103u8, 114u8, 97u8, 100u8, 101u8]
}

/// The bytes of the lowercase header name `x-relayed-by`.
pub open spec fn relayed_by_name() -> Seq<u8> {
    seq![120u8, 45u8, 114u8, 101u8, 108u8, 97u8, 121u8, 101u8, 100u8, 45u8, 98u8, 121u8]
}

/// The path prefix `/v1/scheduler/`.
pub open spec fn scheduler_prefix() -> Seq<u8> {
    seq![47u8, 118u8, 49u8, 47u8, 115u8, 99u8, 104u8, 101u8, 100u8, 117u8, 108u8, 101u8, 114u8, 47u8]
}

/// The path prefix `/v1/jobs/`.
pub open spec fn jobs_prefix() -> Seq<u8> {
    seq![47u8, 118u8, 49u8, 47u8, 106u8, 111u8, 98u8, 115u8, 47u8]
}

/// The path prefix `/v1/storage/`.
pub open spec fn storage_prefix() -> Seq<u8> {
    seq![47u8, 118u8, 49u8, 47u8, 115u8, 116u8, 111u8, 114u8, 97u8, 103u8, 101u8, 47u8]
}

fn connection_name_vec() -> (r: Vec<u8>)
    ensures
        r@ == connection_name(),
{
    let r: Vec<u8> = vec![99u8, 111u8, 110u8, 110u8, 101u8, 99u8, 116u8, 105u8, 111u8, 110u8];
    proof {
        assert(r@ =~= connection_name());
    }
    r
}

fn keep_alive_name_vec() -> (r: Vec<u8>)
    ensures
        r@ == keep_alive_name(),
{
    let r: Vec<u8> = vec![107u8, 101u8, 101u8, 112u8, 45u8, 97u8, 108u8, 105u8, 118u8, 101u8];
    proof {
        assert(r@ =~= keep_alive_name());
    }
    r
}

fn proxy_authenticate_name_vec() -> (r: Vec<u8>)
    ensures
        r@ == proxy_authenticate_name(),
{
    let r: Vec<u8> = vec![112u8, 114u8, 111u8, 120u8, 121u8, 45u8, 97u8, 117u8, 116u8, 104u8, 101u8, 110u8, 116u8, 105u8, 99u8, 97u8, 116u8, 101u8];
    proof {
        assert(r@ =~= proxy_authenticate_name());
    }
    r
}

fn proxy_authorization_name_vec() -> (r: Vec<u8>)
    ensures
        r@ == proxy_authorization_name(),
{
    let r: Vec<u8> = vec![112u8, 114u8, 111u8, 120u8, 121u8, 45u8, 97u8, 117u8, 116u8, 104u8, 111u8, 114u8, 105u8, 122u8, 97u8, 116u8, 105u8, 111u8, 110u8];
    proof {
        assert(r@ =~= proxy_authorization_name());
    }
    r
}

fn te_name_vec() -> (r: Vec<u8>)
    ensures
        r@ == te_name(),
{
    let r: Vec<u8> = vec![116u8, 101u8];
    proof {
        assert(r@ =~= te_name());
    }
    r
}

fn trailers_name_vec() -> (r: Vec<u8>)
    ensures
        r@ == trailers_name(),
{
    let r: Vec<u8> = vec![116u8, 114u8, 97u8, 105u8, 108u8, 101u8, 114u8, 115u8];
    proof {
        assert(r@ =~= trailers_name());
    }
    r
}

fn transfer_encoding_name_vec() -> (r: Vec<u8>)
    ensures
        r@ == transfer_encoding_name(),
{
    let r: Vec<u8> = vec![116u8, 114u8, 97u8, 110u8, 115u8, 102u8, 101u8, 114u8, 45u8, 101u8, 110u8, 99u8, 111u8, 100u8, 105u8, 110u8, 103u8];
    proof {
        assert(r@ =~= transfer_encoding_name());
    }
    r
}

fn upgrade_name_vec() -> (r: Vec<u8>)
    ensures
        r@ == upgrade_name(),
{
    let r: Vec<u8> = vec![117u8, 112u8, 103u8, 114u8, 97u8, 100u8, 101u8];
    proof {
        assert(r@ =~= upgrade_name());
    }
    r
}

fn relayed_by_name_vec() -> (r: Vec<u8>)
    ensures
        r@ == relayed_by_name(),
{
    let r: Vec<u8> = vec![120u8, 45u8, 114u8, 101u8, 108u8, 97u8, 121u8, 101u8, 100u8, 45u8, 98u8, 121u8];
    proof {
        assert(r@ =~= relayed_by_name());
    }
    r
}

fn scheduler_prefix_vec() -> (r: Vec<u8>)
    ensures
        r@ == scheduler_prefix(),
{
    let r: Vec<u8> = vec![47u8, 118u8, 49u8, 47u8, 115u8, 99u8, 104u8, 101u8, 100u8, 117u8, 108u8, 101u8, 114u8, 47u8];
    proof {
        assert(r@ =~= scheduler_prefix());
    }
    r
}

fn jobs_prefix_vec() -> (r: Vec<u8>)
    ensures
        r@ == jobs_prefix(),
{
    let r: Vec<u8> = vec![47u8, 118u8, 49u8, 47u8, 106u8, 111u8, 98u8, 115u8, 47u8];
    proof {
        assert(r@ =~= jobs_prefix());
    }
    r
}

fn storage_prefix_vec() -> (r: Vec<u8>)
    ensures
        r@ == storage_prefix(),
{
    let r: Vec<u8> = vec![47u8, 118u8, 49u8, 47u8, 115u8, 116u8, 111u8, 114u8, 97u8, 103u8, 101u8, 47u8];
    proof {
        assert(r@ =~= storage_prefix());
    }
    r
}

/// A hop-by-hop header: stripped on relay, both ways.
pub open spec fn is_hop_name(n: Seq<u8>) -> bool {
    ||| lower(n) == connection_name()
    ||| lower(n) == keep_alive_name()
    ||| lower(n) == proxy_authenticate_name()
    ||| lower(n) == proxy_authorization_name()
    ||| lower(n) == te_name()
    ||| lower(n) == trailers_name()
    ||| lower(n) == transfer_encoding_name()
    ||| lower(n) == upgrade_name()
}

/// The relay marker header.
pub open spec fn is_relay_name(n: Seq<u8>) -> bool {
    lower(n) == relayed_by_name()
}

/// The request already came through a relay.
pub open spec fn has_relay_header(hs: Seq<HeaderModel>) -> bool {
    exists|i: int| 0 <= i < hs.len() && is_relay_name(#[trigger] hs[i].name)
}

/// The request came through this very peer: its own relay mark is on it.
pub open spec fn relayed_by_self(hs: Seq<HeaderModel>, id: u128) -> bool {
    exists|i: int|
        0 <= i < hs.len() && is_relay_name(#[trigger] hs[i].name) && hs[i].value == hex_of_id(id)
}

/// The 32 lowercase hex digits of a 128-bit id, as relay marks carry it.
pub open spec fn hex_of_id(x: u128) -> Seq<u8> {
    hex_bytes(x as int, 32)
}

/// A hex digit's byte, lowercase.
pub open spec fn hex_digit(d: int) -> u8 {
    if d < 10 {
        (48 + d) as u8
    } else {
        (87 + d) as u8
    }
}

/// `x` written big-endian in `n` hex digits.
pub open spec fn hex_bytes(x: int, n: nat) -> Seq<u8>
    decreases n,
{
    if n == 0 {
        Seq::empty()
    } else {
        hex_bytes(x / 16, (n - 1) as nat).push(hex_digit(x % 16))
    }
}

/// ASCII lowercase of a byte string, executable.
pub fn to_lower(v: &Vec<u8>) -> (r: Vec<u8>)
    ensures
        r@ == lower(v@),
{
    let mut r: Vec<u8> = Vec::new();
    let mut i: usize = 0;
    while i < v.len()
        invariant
            i <= v@.len(),
            r@.len() == i,
            forall|j: int| 0 <= j < i ==> #[trigger] r@[j] == lower_byte(v@[j]),
        decreases v@.len() - i,
    {
        let b = v[i];
        if 65 <= b && b <= 90 {
            r.push(b + 32);
        } else {
            r.push(b);
        }
        i += 1;
    }
    proof {
        assert(r@ =~= lower(v@));
    }
    r
}

/// Byte-string equality, executable.
pub fn bytes_eq(a: &Vec<u8>, b: &Vec<u8>) -> (r: bool)
    ensures
        r == (a@ == b@),
{
    if a.len() != b.len() {
        return false;
    }
    let mut i: usize = 0;
    while i < a.len()
        invariant
            i <= a@.len(),
            a@.len() == b@.len(),
            forall|j: int| 0 <= j < i ==> #[trigger] a@[j] == b@[j],
        decreases a@.len() - i,
    {
        if a[i] != b[i] {
            return false;
        }
        i += 1;
    }
    proof {
        assert(a@ =~= b@);
    }
    true
}

/// Does `s` start with `p`?
pub open spec fn spec_starts_with(s: Seq<u8>, p: Seq<u8>) -> bool {
    p.len() <= s.len() && s.subrange(0, p.len() as int) == p
}

pub fn starts_with(s: &Vec<u8>, p: &Vec<u8>) -> (r: bool)
    ensures
        r == spec_starts_with(s@, p@),
{
    if p.len() > s.len() {
        return false;
    }
    let mut i: usize = 0;
    while i < p.len()
        invariant
            i <= p@.len(),
            p@.len() <= s@.len(),
            forall|j: int| 0 <= j < i ==> #[trigger] s@[j] == p@[j],
        decreases p@.len() - i,
    {
        if s[i] != p[i] {
            proof {
                assert(s@.subrange(0, p@.len() as int)[i as int] != p@[i as int]);
            }
            return false;
        }
        i += 1;
    }
    proof {
        assert(s@.subrange(0, p@.len() as int) =~= p@);
    }
    true
}

/// Is this header hop-by-hop?
pub fn is_hop_header(name: &Vec<u8>) -> (r: bool)
    ensures
        r == is_hop_name(name@),
{
    let low = to_lower(name);
    if bytes_eq(&low, &connection_name_vec()) {
        return true;
    }
    if bytes_eq(&low, &keep_alive_name_vec()) {
        return true;
    }
    if bytes_eq(&low, &proxy_authenticate_name_vec()) {
        return true;
    }
    if bytes_eq(&low, &proxy_authorization_name_vec()) {
        return true;
    }
    if bytes_eq(&low, &te_name_vec()) {
        return true;
    }
    if bytes_eq(&low, &trailers_name_vec()) {
        return true;
    }
    if bytes_eq(&low, &transfer_encoding_name_vec()) {
        return true;
    }
    if bytes_eq(&low, &upgrade_name_vec()) {
        return true;
    }
    false
}

/// Is this the relay marker header?
pub fn is_relay_header(name: &Vec<u8>) -> (r: bool)
    ensures
        r == is_relay_name(name@),
{
    let low = to_lower(name);
    bytes_eq(&low, &relayed_by_name_vec())
}

/// The role a path needs: scheduler endpoints need Scheduler, job running
/// needs Runner, storage needs Storage; anything else is served by any peer.
pub open spec fn spec_required_role(path: Seq<u8>) -> Option<Role> {
    if spec_starts_with(path, scheduler_prefix()) {
        Some(Role::Scheduler)
    } else if spec_starts_with(path, jobs_prefix()) {
        Some(Role::Runner)
    } else if spec_starts_with(path, storage_prefix()) {
        Some(Role::Storage)
    } else {
        None
    }
}

pub fn required_role(path: &Vec<u8>) -> (r: Option<Role>)
    ensures
        r == spec_required_role(path@),
{
    if starts_with(path, &scheduler_prefix_vec()) {
        Some(Role::Scheduler)
    } else if starts_with(path, &jobs_prefix_vec()) {
        Some(Role::Runner)
    } else if starts_with(path, &storage_prefix_vec()) {
        Some(Role::Storage)
    } else {
        None
    }
}

/// The bytes of `proxy:`.
pub open spec fn proxy_key_prefix() -> Seq<u8> {
    seq![112u8, 114u8, 111u8, 120u8, 121u8, 58u8]
}

fn proxy_key_prefix_vec() -> (r: Vec<u8>)
    ensures
        r@ == proxy_key_prefix(),
{
    let r: Vec<u8> = vec![112u8, 114u8, 111u8, 120u8, 121u8, 58u8];
    proof {
        assert(r@ =~= proxy_key_prefix());
    }
    r
}

/// The bytes of `:`.
pub open spec fn colon() -> Seq<u8> {
    seq![58u8]
}

fn colon_vec() -> (r: Vec<u8>)
    ensures
        r@ == colon(),
{
    let r: Vec<u8> = vec![58u8];
    proof {
        assert(r@ =~= colon());
    }
    r
}

/// The bytes of `scheduler`.
pub open spec fn scheduler_label() -> Seq<u8> {
    seq![115u8, 99u8, 104u8, 101u8, 100u8, 117u8, 108u8, 101u8, 114u8]
}

fn scheduler_label_vec() -> (r: Vec<u8>)
    ensures
        r@ == scheduler_label(),
{
    let r: Vec<u8> = vec![115u8, 99u8, 104u8, 101u8, 100u8, 117u8, 108u8, 101u8, 114u8];
    proof {
        assert(r@ =~= scheduler_label());
    }
    r
}

/// The bytes of `runner`.
pub open spec fn runner_label() -> Seq<u8> {
    seq![114u8, 117u8, 110u8, 110u8, 101u8, 114u8]
}

fn runner_label_vec() -> (r: Vec<u8>)
    ensures
        r@ == runner_label(),
{
    let r: Vec<u8> = vec![114u8, 117u8, 110u8, 110u8, 101u8, 114u8];
    proof {
        assert(r@ =~= runner_label());
    }
    r
}

/// The bytes of `storage`.
pub open spec fn storage_label() -> Seq<u8> {
    seq![115u8, 116u8, 111u8, 114u8, 97u8, 103u8, 101u8]
}

fn storage_label_vec() -> (r: Vec<u8>)
    ensures
        r@ == storage_label(),
{
    let r: Vec<u8> = vec![115u8, 116u8, 111u8, 114u8, 97u8, 103u8, 101u8];
    proof {
        assert(r@ =~= storage_label());
    }
    r
}

/// The bytes of `client`.
pub open spec fn client_label() -> Seq<u8> {
    seq![99u8, 108u8, 105u8, 101u8, 110u8, 116u8]
}

fn client_label_vec() -> (r: Vec<u8>)
    ensures
        r@ == client_label(),
{
    let r: Vec<u8> = vec![99u8, 108u8, 105u8, 101u8, 110u8, 116u8];
    proof {
        assert(r@ =~= client_label());
    }
    r
}

/// The bytes of `observer`.
pub open spec fn observer_label() -> Seq<u8> {
    seq![111u8, 98u8, 115u8, 101u8, 114u8, 118u8, 101u8, 114u8]
}

fn observer_label_vec() -> (r: Vec<u8>)
    ensures
        r@ == observer_label(),
{
    let r: Vec<u8> = vec![111u8, 98u8, 115u8, 101u8, 114u8, 118u8, 101u8, 114u8];
    proof {
        assert(r@ =~= observer_label());
    }
    r
}

/// The headers that survive a relay: everything but hop-by-hop headers, in
/// order.
pub open spec fn kept_headers(hs: Seq<HeaderModel>) -> Seq<HeaderModel>
    decreases hs.len(),
{
    if hs.len() == 0 {
        Seq::empty()
    } else {
        kept_headers(hs.drop_last()) + (if is_hop_name(hs.last().name) {
            Seq::empty()
        } else {
            seq![hs.last()]
        })
    }
}

/// What the middleware forwards upstream: the same request, hop-by-hop
/// headers stripped, the relay mark appended.
pub open spec fn spec_forward(req: RequestModel, id: u128) -> RequestModel {
    RequestModel {
        method: req.method,
        path: req.path,
        headers: kept_headers(req.headers).push(
            HeaderModel { name: relayed_by_name(), value: hex_of_id(id) },
        ),
        body: req.body,
    }
}

/// What the middleware hands back: the upstream response, hop-by-hop
/// headers stripped.
pub open spec fn spec_return(resp: ResponseModel) -> ResponseModel {
    ResponseModel { status: resp.status, headers: kept_headers(resp.headers), body: resp.body }
}

/// Byte-for-byte copy of a header.
fn copy_header(h: &Header) -> (r: Header)
    ensures
        r@ == h@,
{
    let name = crate::wire::copy_range(&h.name, 0, h.name.len());
    let value = crate::wire::copy_range(&h.value, 0, h.value.len());
    proof {
        assert(name@ =~= h.name@);
        assert(value@ =~= h.value@);
    }
    Header { name, value }
}

/// Byte-for-byte copy of a payload.
fn copy_bytes(v: &Vec<u8>) -> (r: Vec<u8>)
    ensures
        r@ == v@,
{
    crate::wire::copy_range(v, 0, v.len())
}

/// Drop the hop-by-hop headers, keeping everything else in order.
pub fn strip_hop_headers(hs: &Vec<Header>) -> (r: Vec<Header>)
    ensures
        r@.map_values(|h: Header| h@) == kept_headers(hs@.map_values(|h: Header| h@)),
{
    let ghost full = hs@.map_values(|h: Header| h@);
    let mut r: Vec<Header> = Vec::new();
    let mut i: usize = 0;
    while i < hs.len()
        invariant
            i <= hs@.len(),
            full == hs@.map_values(|h: Header| h@),
            r@.map_values(|h: Header| h@) == kept_headers(full.take(i as int)),
        decreases hs@.len() - i,
    {
        let ghost pre = r@.map_values(|h: Header| h@);
        proof {
            assert(full.take(i as int + 1).drop_last() =~= full.take(i as int));
            assert(full.take(i as int + 1).last() == full[i as int]);
        }
        if !is_hop_header(&hs[i].name) {
            r.push(copy_header(&hs[i]));
            proof {
                assert(r@.map_values(|h: Header| h@) =~= pre + seq![full[i as int]]);
            }
        } else {
            proof {
                assert(kept_headers(full.take(i as int + 1)) =~= pre);
            }
        }
        i += 1;
    }
    proof {
        assert(full.take(full.len() as int) =~= full);
    }
    r
}

/// 16 raised to `n`: the number of values `n` hex digits can carry.
pub open spec fn pow16(n: nat) -> int
    decreases n,
{
    if n == 0 {
        1
    } else {
        16 * pow16((n - 1) as nat)
    }
}

proof fn lemma_pow16_pos(n: nat)
    ensures
        pow16(n) >= 1,
    decreases n,
{
    if n > 0 {
        lemma_pow16_pos((n - 1) as nat);
    }
}

/// The value of 32 hex digits covers every u128.
proof fn lemma_pow16_32()
    ensures
        pow16(32) == 0x100000000000000000000000000000000,
{
    reveal_with_fuel(pow16, 33);
}

proof fn lemma_hex_div_bound(x: int, p: int)
    requires
        0 <= x,
        x < 16 * p,
        1 <= p,
    ensures
        x / 16 < p,
{
    if x / 16 >= p {
        assert(x >= 16 * (x / 16)) by {
            vstd::arithmetic::div_mod::lemma_fundamental_div_mod(x, 16);
        }
        assert(16 * (x / 16) >= 16 * p) by (nonlinear_arith)
            requires
                x / 16 >= p,
        ;
    }
}

/// Append `x` as `n` lowercase hex digits.
fn push_hex(out: &mut Vec<u8>, x: u128, n: usize)
    requires
        n <= 32,
        (x as int) < pow16(n as nat),
    ensures
        final(out)@ == old(out)@ + hex_bytes(x as int, n as nat),
    decreases n,
{
    if n == 0 {
        proof {
            assert(old(out)@ + hex_bytes(x as int, 0) =~= old(out)@);
        }
        return;
    }
    proof {
        lemma_pow16_pos((n - 1) as nat);
        lemma_hex_div_bound(x as int, pow16((n - 1) as nat));
    }
    push_hex(out, x / 16, n - 1);
    let d = (x % 16) as u8;
    if d < 10 {
        out.push(48 + d);
    } else {
        out.push(87 + d);
    }
    proof {
        assert(final(out)@ =~= old(out)@ + hex_bytes(x as int, n as nat));
    }
}

/// The relay mark's value for a peer: its id in 32 lowercase hex digits.
pub fn id_hex(id: u128) -> (r: Vec<u8>)
    ensures
        r@ == hex_of_id(id),
{
    proof {
        lemma_pow16_32();
    }
    let mut out: Vec<u8> = Vec::new();
    push_hex(&mut out, id, 32);
    proof {
        assert(Seq::<u8>::empty() + hex_bytes(id as int, 32) =~= hex_bytes(id as int, 32));
    }
    out
}

/// Build the request to send upstream: same method, path and body; hop-by-hop
/// headers stripped; the local peer's relay mark appended.
pub fn build_relay_request(req: &Request, local_id: u128) -> (out: Request)
    ensures
        out@ == spec_forward(req@, local_id),
{
    let mut headers = strip_hop_headers(&req.headers);
    let ghost kept = headers@.map_values(|h: Header| h@);
    headers.push(Header { name: relayed_by_name_vec(), value: id_hex(local_id) });
    proof {
        assert(headers@.map_values(|h: Header| h@) =~= kept.push(
            HeaderModel { name: relayed_by_name(), value: hex_of_id(local_id) },
        ));
    }
    Request {
        method: copy_bytes(&req.method),
        path: copy_bytes(&req.path),
        headers,
        body: copy_bytes(&req.body),
    }
}

/// Build the response to hand back: the upstream response with hop-by-hop
/// headers stripped.
pub fn build_return_response(resp: &Response) -> (out: Response)
    ensures
        out@ == spec_return(resp@),
{
    Response {
        status: resp.status,
        headers: strip_hop_headers(&resp.headers),
        body: copy_bytes(&resp.body),
    }
}

/// What the middleware does with an inbound request.
#[derive(Clone, Copy, Debug, PartialEq, Eq, Structural)]
pub enum RelayDecision {
    /// The local peer has the handler: dispatch here.
    HandleLocally,
    /// Forward to this peer, one hop.
    Relay { peer: u128, addr: Addr },
    /// Nobody reachable advertises the role.
    NoPeer { role: Role },
    /// The request carries this very peer's relay mark.
    LoopDetected,
}

impl MembershipView {
    /// Decide how to treat an inbound request: serve it here when the local
    /// peer has the required role (or the path needs none), refuse a cycle,
    /// relay at most one hop, and fail when no capable peer is reachable.
    pub fn decide_route(&self, local: &PeerMetadata, req: &Request, rotation: usize) -> (d: RelayDecision)
        ensures
            spec_required_role(req@.path) is None ==> d == RelayDecision::HandleLocally,
            spec_required_role(req@.path) matches Some(role) ==> {
                if local@.roles.spec_has(role) {
                    d == RelayDecision::HandleLocally
                } else if relayed_by_self(req@.headers, local@.peer_id) {
                    d == RelayDecision::LoopDetected
                } else if has_relay_header(req@.headers) {
                    d == (RelayDecision::NoPeer { role })
                } else if role_reachable(self@, role) {
                    d matches RelayDecision::Relay { peer, addr } && exists|i: int|
                        0 <= i < self@.len() && (#[trigger] self@[i].peer_id) == peer
                            && self@[i].roles.spec_has(role) && self@[i].http_address == Some(addr)
                } else {
                    d == (RelayDecision::NoPeer { role })
                }
            },
            d matches RelayDecision::Relay { .. } ==> !has_relay_header(req@.headers),
    {
        let role = match required_role(&req.path) {
            None => {
                return RelayDecision::HandleLocally;
            },
            Some(r) => r,
        };
        if local.roles.has(role) {
            return RelayDecision::HandleLocally;
        }
        let mark = id_hex(local.peer_id);
        let mut has_mark = false;
        let mut self_mark = false;
        let mut i: usize = 0;
        while i < req.headers.len()
            invariant
                i <= req@.headers.len(),
                has_mark == has_relay_header(req@.headers.take(i as int)),
                self_mark == relayed_by_self(req@.headers.take(i as int), local@.peer_id),
                mark@ == hex_of_id(local@.peer_id),
            decreases req@.headers.len() - i,
        {
            let ghost pre = req@.headers.take(i as int);
            let ghost cur = req@.headers.take(i as int + 1);
            proof {
                assert(cur.drop_last() =~= pre);
                assert(cur.last() == req@.headers[i as int]);
                assert(forall|j: int| 0 <= j < i ==> cur[j] == pre[j]);
            }
            let ghost had_mark = has_mark;
            let ghost had_self = self_mark;
            let is_rn = is_relay_header(&req.headers[i].name);
            let mut is_self = false;
            if is_rn {
                has_mark = true;
                if bytes_eq(&req.headers[i].value, &mark) {
                    self_mark = true;
                    is_self = true;
                }
            }
            proof {
                if has_mark {
                    if had_mark {
                        let w = choose|w: int|
                            0 <= w < pre.len() && is_relay_name(#[trigger] pre[w].name);
                        assert(cur[w] == pre[w]);
                        assert(is_relay_name(cur[w].name));
                        assert(has_relay_header(cur));
                    } else {
                        assert(is_rn);
                        assert(is_relay_name(cur[i as int].name));
                        assert(has_relay_header(cur));
                    }
                } else {
                    assert(!is_rn);
                    assert forall|j: int| 0 <= j < cur.len() implies !is_relay_name(
                        #[trigger] cur[j].name,
                    ) by {
                        if j < i {
                            assert(cur[j] == pre[j]);
                            if is_relay_name(pre[j].name) {
                                assert(has_relay_header(pre));
                            }
                        } else {
                            assert(cur[j] == req@.headers[i as int]);
                        }
                    }
                    assert(!has_relay_header(cur));
                }
                if self_mark {
                    if had_self {
                        let w = choose|w: int|
                            0 <= w < pre.len() && is_relay_name(#[trigger] pre[w].name)
                                && pre[w].value == hex_of_id(local@.peer_id);
                        assert(cur[w] == pre[w]);
                        assert(relayed_by_self(cur, local@.peer_id));
                    } else {
                        assert(is_rn && is_self);
                        assert(is_relay_name(cur[i as int].name));
                        assert(cur[i as int].value == hex_of_id(local@.peer_id));
                        assert(relayed_by_self(cur, local@.peer_id));
                    }
                } else {
                    assert forall|j: int|
                        0 <= j < cur.len() && is_relay_name(#[trigger] cur[j].name) implies cur[j].value
                        != hex_of_id(local@.peer_id) by {
                        if j < i {
                            assert(cur[j] == pre[j]);
                            if pre[j].value == hex_of_id(local@.peer_id) {
                                assert(relayed_by_self(pre, local@.peer_id));
                            }
                        } else {
                            assert(cur[j] == req@.headers[i as int]);
                            assert(is_rn);
                            assert(!is_self);
                        }
                    }
                    assert(!relayed_by_self(cur, local@.peer_id));
                }
            }
            i += 1;
        }
        proof {
            assert(req@.headers.take(req@.headers.len() as int) =~= req@.headers);
        }
        if self_mark {
            return RelayDecision::LoopDetected;
        }
        if has_mark {
            return RelayDecision::NoPeer { role };
        }
        match self.find_role_reachable(role, rotation) {
            Some(p) => {
                let peer = p.peer_id;
                match &p.http_address {
                    Some(a) => {
                        let addr = Addr { ip: a.ip, port: a.port };
                        proof {
                            let w = choose|i: int| 0 <= i < self@.len() && #[trigger] self@[i] == p@;
                            assert(self@[w].peer_id == peer);
                            assert(self@[w].roles.spec_has(role));
                            assert(addr == *a);
                            assert(self@[w].http_address == Some(addr));
                        }
                        RelayDecision::Relay { peer, addr }
                    },
                    None => {
                        proof {
                            assert(false);
                        }
                        RelayDecision::NoPeer { role }
                    },
                }
            },
            None => RelayDecision::NoPeer { role },
        }
    }
}

/// Every header the strip keeps is a non-hop-by-hop header of the original,
/// and every non-hop-by-hop header of the original is kept.
pub proof fn lemma_kept_headers_exact(hs: Seq<HeaderModel>)
    ensures
        forall|i: int|
            0 <= i < kept_headers(hs).len() ==> !is_hop_name(
                (#[trigger] kept_headers(hs)[i]).name,
            ),
        forall|i: int| 0 <= i < kept_headers(hs).len() ==> hs.contains(#[trigger] kept_headers(hs)[i]),
        forall|j: int|
            0 <= j < hs.len() && !is_hop_name(hs[j].name) ==> kept_headers(hs).contains(
                #[trigger] hs[j],
            ),
    decreases hs.len(),
{
    if hs.len() > 0 {
        let pre = hs.drop_last();
        lemma_kept_headers_exact(pre);
        let k = kept_headers(hs);
        let kp = kept_headers(pre);
        assert forall|i: int| 0 <= i < k.len() implies !is_hop_name((#[trigger] k[i]).name) by {
            if i < kp.len() {
                assert(k[i] == kp[i]);
            } else {
                assert(k[i] == hs.last());
            }
        }
        assert forall|i: int| 0 <= i < k.len() implies hs.contains(#[trigger] k[i]) by {
            if i < kp.len() {
                assert(k[i] == kp[i]);
                assert(pre.contains(kp[i]));
                let w = choose|w: int| 0 <= w < pre.len() && pre[w] == kp[i];
                assert(hs[w] == kp[i]);
            } else {
                assert(k[i] == hs.last());
                assert(hs[hs.len() - 1] == hs.last());
            }
        }
        assert forall|j: int| 0 <= j < hs.len() && !is_hop_name(hs[j].name) implies k.contains(
            #[trigger] hs[j],
        ) by {
            if j < hs.len() - 1 {
                assert(pre[j] == hs[j]);
                assert(kp.contains(pre[j]));
                let w = choose|w: int| 0 <= w < kp.len() && kp[w] == hs[j];
                assert(k[w] == hs[j]);
            } else {
                assert(hs[j] == hs.last());
                assert(k[k.len() - 1] == hs.last());
            }
        }
    }
}

/// A relayed exchange is transparent. What goes upstream is the original
/// request but for hop-by-hop headers and the added relay mark; what comes
/// back to the client is the upstream response, bit-identical in status and
/// body, with only hop-by-hop headers gone.
pub proof fn lemma_relay_transparent(req: RequestModel, id: u128, upstream: ResponseModel)
    ensures
        spec_forward(req, id).method == req.method,
        spec_forward(req, id).path == req.path,
        spec_forward(req, id).body == req.body,
        spec_return(upstream).status == upstream.status,
        spec_return(upstream).body == upstream.body,
        forall|i: int|
            0 <= i < spec_return(upstream).headers.len() ==> !is_hop_name(
                (#[trigger] spec_return(upstream).headers[i]).name,
            ),
        forall|i: int|
            0 <= i < spec_return(upstream).headers.len() ==> upstream.headers.contains(
                #[trigger] spec_return(upstream).headers[i],
            ),
        forall|j: int|
            0 <= j < upstream.headers.len() && !is_hop_name(upstream.headers[j].name)
                ==> spec_return(upstream).headers.contains(#[trigger] upstream.headers[j]),
{
    lemma_kept_headers_exact(upstream.headers);
    assert(spec_return(upstream).headers == kept_headers(upstream.headers));
}

/// The error kinds the HTTP surface reports, with their status codes.
#[derive(Clone, Copy, Debug, PartialEq, Eq, Structural)]
pub enum ErrorKind {
    NotFound,
    InvalidTransition,
    NoPeerForRole,
    RelayFailedMidStream,
    RelayFailedPreStream,
    LoopDetected,
    PayloadTooLarge,
    RelayTimeout,
    Internal,
}

/// The HTTP status each error kind maps to.
pub open spec fn spec_status_of(k: ErrorKind) -> u16 {
    match k {
        ErrorKind::NotFound => 404,
        ErrorKind::InvalidTransition => 400,
        ErrorKind::NoPeerForRole => 503,
        ErrorKind::RelayFailedMidStream => 502,
        ErrorKind::RelayFailedPreStream => 503,
        ErrorKind::LoopDetected => 508,
        ErrorKind::PayloadTooLarge => 413,
        ErrorKind::RelayTimeout => 504,
        ErrorKind::Internal => 500,
    }
}

pub fn status_of(k: ErrorKind) -> (r: u16)
    ensures
        r == spec_status_of(k),
{
    match k {
        ErrorKind::NotFound => 404,
        ErrorKind::InvalidTransition => 400,
        ErrorKind::NoPeerForRole => 503,
        ErrorKind::RelayFailedMidStream => 502,
        ErrorKind::RelayFailedPreStream => 503,
        ErrorKind::LoopDetected => 508,
        ErrorKind::PayloadTooLarge => 413,
        ErrorKind::RelayTimeout => 504,
        ErrorKind::Internal => 500,
    }
}

/// The request-body ceiling: 100 MiB.
pub const MAX_BODY_BYTES: usize = 100 * 1024 * 1024;

/// May a body of `n` bytes come in?
pub fn body_within_limit(n: usize) -> (r: bool)
    ensures
        r == (n <= MAX_BODY_BYTES),
{
    n <= MAX_BODY_BYTES
}

/// The lowercase label of a role, for metrics keys.
pub open spec fn role_label(r: Role) -> Seq<u8> {
    match r {
        Role::Scheduler => scheduler_label(),
        Role::Runner => runner_label(),
        Role::Storage => storage_label(),
        Role::Client => client_label(),
        Role::Observer => observer_label(),
    }
}

/// The metrics counter key a relay bumps: `proxy:<role>:<path>`.
pub fn proxy_counter_key(role: Role, path: &Vec<u8>) -> (r: Vec<u8>)
    ensures
        r@ == proxy_key_prefix() + role_label(role) + colon() + path@,
{
    let mut out = proxy_key_prefix_vec();
    let label = match role {
        Role::Scheduler => scheduler_label_vec(),
        Role::Runner => runner_label_vec(),
        Role::Storage => storage_label_vec(),
        Role::Client => client_label_vec(),
        Role::Observer => observer_label_vec(),
    };
    crate::wire::push_range(&mut out, &label, 0, label.len());
    let colon_v = colon_vec();
    crate::wire::push_range(&mut out, &colon_v, 0, colon_v.len());
    crate::wire::push_range(&mut out, path, 0, path.len());
    proof {
        assert(label@.subrange(0, label@.len() as int) =~= label@);
        assert(colon_v@.subrange(0, colon_v@.len() as int) =~= colon_v@);
        assert(path@.subrange(0, path@.len() as int) =~= path@);
        assert(out@ =~= proxy_key_prefix() + role_label(role) + colon() + path@);
    }
    out
}

} // verus!
