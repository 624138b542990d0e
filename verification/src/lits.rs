//! The byte-string constants of the wire formats and of the store layout,
//! each as a spec value with its executable counterpart.

use vstd::prelude::*;

verus! {

/// The text `"metadata"`.
pub open spec fn spec_metadata_dir() -> Seq<u8> {
    seq![109u8, 101u8, 116u8, 97u8, 100u8, 97u8, 116u8, 97u8]
}

/// The text `"metadata"`.
pub fn metadata_dir() -> (r: Vec<u8>)
    ensures
        r@ == spec_metadata_dir(),
{
    let a: [u8; 8] = [109, 101, 116, 97, 100, 97, 116, 97];
    crate::text::to_vec(a.as_slice())
}

/// The text `"keys"`.
pub open spec fn spec_keys_dir() -> Seq<u8> {
    seq![107u8, 101u8, 121u8, 115u8]
}

/// The text `"keys"`.
pub fn keys_dir() -> (r: Vec<u8>)
    ensures
        r@ == spec_keys_dir(),
{
    let a: [u8; 4] = [107, 101, 121, 115];
    crate::text::to_vec(a.as_slice())
}

/// The text `"provider-metadata.json"`.
pub open spec fn spec_provider_metadata_json() -> Seq<u8> {
    seq![112u8, 114u8, 111u8, 118u8, 105u8, 100u8, 101u8, 114u8, 45u8, 109u8, 101u8, 116u8, 97u8, 100u8, 97u8, 116u8, 97u8, 46u8, 106u8, 115u8, 111u8, 110u8]
}

/// The text `"provider-metadata.json"`.
pub fn provider_metadata_json() -> (r: Vec<u8>)
    ensures
        r@ == spec_provider_metadata_json(),
{
    let a: [u8; 22] = [112, 114, 111, 118, 105, 100, 101, 114, 45, 109, 101, 116, 97, 100, 97, 116, 97, 46, 106, 115, 111, 110];
    crate::text::to_vec(a.as_slice())
}

/// The text `"changes.csv"`.
pub open spec fn spec_changes_csv() -> Seq<u8> {
    seq![99u8, 104u8, 97u8, 110u8, 103u8, 101u8, 115u8, 46u8, 99u8, 115u8, 118u8]
}

/// The text `"changes.csv"`.
pub fn changes_csv() -> (r: Vec<u8>)
    ensures
        r@ == spec_changes_csv(),
{
    let a: [u8; 11] = [99, 104, 97, 110, 103, 101, 115, 46, 99, 115, 118];
    crate::text::to_vec(a.as_slice())
}

/// The text `".asc"`.
pub open spec fn spec_dot_asc() -> Seq<u8> {
    seq![46u8, 97u8, 115u8, 99u8]
}

/// The text `".asc"`.
pub fn dot_asc() -> (r: Vec<u8>)
    ensures
        r@ == spec_dot_asc(),
{
    let a: [u8; 4] = [46, 97, 115, 99];
    crate::text::to_vec(a.as_slice())
}

/// The text `".sha256"`.
pub open spec fn spec_dot_sha256() -> Seq<u8> {
    seq![46u8, 115u8, 104u8, 97u8, 50u8, 53u8, 54u8]
}

/// The text `".sha256"`.
pub fn dot_sha256() -> (r: Vec<u8>)
    ensures
        r@ == spec_dot_sha256(),
{
    let a: [u8; 7] = [46, 115, 104, 97, 50, 53, 54];
    crate::text::to_vec(a.as_slice())
}

/// The text `".sha512"`.
pub open spec fn spec_dot_sha512() -> Seq<u8> {
    seq![46u8, 115u8, 104u8, 97u8, 53u8, 49u8, 50u8]
}

/// The text `".sha512"`.
pub fn dot_sha512() -> (r: Vec<u8>)
    ensures
        r@ == spec_dot_sha512(),
{
    let a: [u8; 7] = [46, 115, 104, 97, 53, 49, 50];
    crate::text::to_vec(a.as_slice())
}

/// The text `".json"`.
pub open spec fn spec_dot_json() -> Seq<u8> {
    seq![46u8, 106u8, 115u8, 111u8, 110u8]
}

/// The text `".json"`.
pub fn dot_json() -> (r: Vec<u8>)
    ensures
        r@ == spec_dot_json(),
{
    let a: [u8; 5] = [46, 106, 115, 111, 110];
    crate::text::to_vec(a.as_slice())
}

/// The text `".txt"`.
pub open spec fn spec_dot_txt() -> Seq<u8> {
    seq![46u8, 116u8, 120u8, 116u8]
}

/// The text `".txt"`.
pub fn dot_txt() -> (r: Vec<u8>)
    ensures
        r@ == spec_dot_txt(),
{
    let a: [u8; 4] = [46, 116, 120, 116];
    crate::text::to_vec(a.as_slice())
}

/// The text `"file"`.
pub open spec fn spec_file_scheme() -> Seq<u8> {
    seq![102u8, 105u8, 108u8, 101u8]
}

/// The text `"file"`.
pub fn file_scheme() -> (r: Vec<u8>)
    ensures
        r@ == spec_file_scheme(),
{
    let a: [u8; 4] = [102, 105, 108, 101];
    crate::text::to_vec(a.as_slice())
}

/// The text `"sha256"`.
pub open spec fn spec_sha256_name() -> Seq<u8> {
    seq![115u8, 104u8, 97u8, 50u8, 53u8, 54u8]
}

/// The text `"sha256"`.
pub fn sha256_name() -> (r: Vec<u8>)
    ensures
        r@ == spec_sha256_name(),
{
    let a: [u8; 6] = [115, 104, 97, 50, 53, 54];
    crate::text::to_vec(a.as_slice())
}

/// The text `"sha512"`.
pub open spec fn spec_sha512_name() -> Seq<u8> {
    seq![115u8, 104u8, 97u8, 53u8, 49u8, 50u8]
}

/// The text `"sha512"`.
pub fn sha512_name() -> (r: Vec<u8>)
    ensures
        r@ == spec_sha512_name(),
{
    let a: [u8; 6] = [115, 104, 97, 53, 49, 50];
    crate::text::to_vec(a.as_slice())
}

/// The text `"user.etag"`.
pub open spec fn spec_etag_attr() -> Seq<u8> {
    seq![117u8, 115u8, 101u8, 114u8, 46u8, 101u8, 116u8, 97u8, 103u8]
}

/// The text `"user.etag"`.
pub fn etag_attr() -> (r: Vec<u8>)
    ensures
        r@ == spec_etag_attr(),
{
    let a: [u8; 9] = [117, 115, 101, 114, 46, 101, 116, 97, 103];
    crate::text::to_vec(a.as_slice())
}

/// The text `"distributions"`.
pub open spec fn spec_key_distributions() -> Seq<u8> {
    seq![100u8, 105u8, 115u8, 116u8, 114u8, 105u8, 98u8, 117u8, 116u8, 105u8, 111u8, 110u8, 115u8]
}

/// The text `"distributions"`.
pub fn key_distributions() -> (r: Vec<u8>)
    ensures
        r@ == spec_key_distributions(),
{
    let a: [u8; 13] = [100, 105, 115, 116, 114, 105, 98, 117, 116, 105, 111, 110, 115];
    crate::text::to_vec(a.as_slice())
}

/// The text `"directory_url"`.
pub open spec fn spec_key_directory_url() -> Seq<u8> {
    seq![100u8, 105u8, 114u8, 101u8, 99u8, 116u8, 111u8, 114u8, 121u8, 95u8, 117u8, 114u8, 108u8]
}

/// The text `"directory_url"`.
pub fn key_directory_url() -> (r: Vec<u8>)
    ensures
        r@ == spec_key_directory_url(),
{
    let a: [u8; 13] = [100, 105, 114, 101, 99, 116, 111, 114, 121, 95, 117, 114, 108];
    crate::text::to_vec(a.as_slice())
}

/// The text `"rolie"`.
pub open spec fn spec_key_rolie() -> Seq<u8> {
    seq![114u8, 111u8, 108u8, 105u8, 101u8]
}

/// The text `"rolie"`.
pub fn key_rolie() -> (r: Vec<u8>)
    ensures
        r@ == spec_key_rolie(),
{
    let a: [u8; 5] = [114, 111, 108, 105, 101];
    crate::text::to_vec(a.as_slice())
}

/// The text `"feeds"`.
pub open spec fn spec_key_feeds() -> Seq<u8> {
    seq![102u8, 101u8, 101u8, 100u8, 115u8]
}

/// The text `"feeds"`.
pub fn key_feeds() -> (r: Vec<u8>)
    ensures
        r@ == spec_key_feeds(),
{
    let a: [u8; 5] = [102, 101, 101, 100, 115];
    crate::text::to_vec(a.as_slice())
}

/// The text `"url"`.
pub open spec fn spec_key_url() -> Seq<u8> {
    seq![117u8, 114u8, 108u8]
}

/// The text `"url"`.
pub fn key_url() -> (r: Vec<u8>)
    ensures
        r@ == spec_key_url(),
{
    let a: [u8; 3] = [117, 114, 108];
    crate::text::to_vec(a.as_slice())
}

/// The text `"public_openpgp_keys"`.
pub open spec fn spec_key_public_openpgp_keys() -> Seq<u8> {
    seq![112u8, 117u8, 98u8, 108u8, 105u8, 99u8, 95u8, 111u8, 112u8, 101u8, 110u8, 112u8, 103u8, 112u8, 95u8, 107u8, 101u8, 121u8, 115u8]
}

/// The text `"public_openpgp_keys"`.
pub fn key_public_openpgp_keys() -> (r: Vec<u8>)
    ensures
        r@ == spec_key_public_openpgp_keys(),
{
    let a: [u8; 19] = [112, 117, 98, 108, 105, 99, 95, 111, 112, 101, 110, 112, 103, 112, 95, 107, 101, 121, 115];
    crate::text::to_vec(a.as_slice())
}

/// The text `"fingerprint"`.
pub open spec fn spec_key_fingerprint() -> Seq<u8> {
    seq![102u8, 105u8, 110u8, 103u8, 101u8, 114u8, 112u8, 114u8, 105u8, 110u8, 116u8]
}

/// The text `"fingerprint"`.
pub fn key_fingerprint() -> (r: Vec<u8>)
    ensures
        r@ == spec_key_fingerprint(),
{
    let a: [u8; 11] = [102, 105, 110, 103, 101, 114, 112, 114, 105, 110, 116];
    crate::text::to_vec(a.as_slice())
}

/// The text `"/"`.
pub open spec fn spec_slash() -> Seq<u8> {
    seq![47u8]
}

/// The text `"/"`.
pub fn slash() -> (r: Vec<u8>)
    ensures
        r@ == spec_slash(),
{
    let a: [u8; 1] = [47];
    crate::text::to_vec(a.as_slice())
}

/// The text `"check_all_products_v11ies_exits_in_product_tree"`.
pub open spec fn spec_product_tree_check() -> Seq<u8> {
    seq![99u8, 104u8, 101u8, 99u8, 107u8, 95u8, 97u8, 108u8, 108u8, 95u8, 112u8, 114u8, 111u8, 100u8, 117u8, 99u8, 116u8, 115u8, 95u8, 118u8, 49u8, 49u8, 105u8, 101u8, 115u8, 95u8, 101u8, 120u8, 105u8, 116u8, 115u8, 95u8, 105u8, 110u8, 95u8, 112u8, 114u8, 111u8, 100u8, 117u8, 99u8, 116u8, 95u8, 116u8, 114u8, 101u8, 101u8]
}

/// The text `"check_all_products_v11ies_exits_in_product_tree"`.
pub fn product_tree_check() -> (r: Vec<u8>)
    ensures
        r@ == spec_product_tree_check(),
{
    let a: [u8; 47] = [99, 104, 101, 99, 107, 95, 97, 108, 108, 95, 112, 114, 111, 100, 117, 99, 116, 115, 95, 118, 49, 49, 105, 101, 115, 95, 101, 120, 105, 116, 115, 95, 105, 110, 95, 112, 114, 111, 100, 117, 99, 116, 95, 116, 114, 101, 101];
    crate::text::to_vec(a.as_slice())
}

/// The text `"feed"`.
pub open spec fn spec_key_feed() -> Seq<u8> {
    seq![102u8, 101u8, 101u8, 100u8]
}

/// The text `"feed"`.
pub fn key_feed() -> (r: Vec<u8>)
    ensures
        r@ == spec_key_feed(),
{
    let a: [u8; 4] = [102, 101, 101, 100];
    crate::text::to_vec(a.as_slice())
}

/// The text `"entry"`.
pub open spec fn spec_key_entry() -> Seq<u8> {
    seq![101u8, 110u8, 116u8, 114u8, 121u8]
}

/// The text `"entry"`.
pub fn key_entry() -> (r: Vec<u8>)
    ensures
        r@ == spec_key_entry(),
{
    let a: [u8; 5] = [101, 110, 116, 114, 121];
    crate::text::to_vec(a.as_slice())
}

/// The text `"updated"`.
pub open spec fn spec_key_updated() -> Seq<u8> {
    seq![117u8, 112u8, 100u8, 97u8, 116u8, 101u8, 100u8]
}

/// The text `"updated"`.
pub fn key_updated() -> (r: Vec<u8>)
    ensures
        r@ == spec_key_updated(),
{
    let a: [u8; 7] = [117, 112, 100, 97, 116, 101, 100];
    crate::text::to_vec(a.as_slice())
}

/// The text `"link"`.
pub open spec fn spec_key_link() -> Seq<u8> {
    seq![108u8, 105u8, 110u8, 107u8]
}

/// The text `"link"`.
pub fn key_link() -> (r: Vec<u8>)
    ensures
        r@ == spec_key_link(),
{
    let a: [u8; 4] = [108, 105, 110, 107];
    crate::text::to_vec(a.as_slice())
}

/// The text `"rel"`.
pub open spec fn spec_key_rel() -> Seq<u8> {
    seq![114u8, 101u8, 108u8]
}

/// The text `"rel"`.
pub fn key_rel() -> (r: Vec<u8>)
    ensures
        r@ == spec_key_rel(),
{
    let a: [u8; 3] = [114, 101, 108];
    crate::text::to_vec(a.as_slice())
}

/// The text `"href"`.
pub open spec fn spec_key_href() -> Seq<u8> {
    seq![104u8, 114u8, 101u8, 102u8]
}

/// The text `"href"`.
pub fn key_href() -> (r: Vec<u8>)
    ensures
        r@ == spec_key_href(),
{
    let a: [u8; 4] = [104, 114, 101, 102];
    crate::text::to_vec(a.as_slice())
}

/// The text `"self"`.
pub open spec fn spec_rel_self() -> Seq<u8> {
    seq![115u8, 101u8, 108u8, 102u8]
}

/// The text `"self"`.
pub fn rel_self() -> (r: Vec<u8>)
    ensures
        r@ == spec_rel_self(),
{
    let a: [u8; 4] = [115, 101, 108, 102];
    crate::text::to_vec(a.as_slice())
}

/// The text `"signature"`.
pub open spec fn spec_rel_signature() -> Seq<u8> {
    seq![115u8, 105u8, 103u8, 110u8, 97u8, 116u8, 117u8, 114u8, 101u8]
}

/// The text `"signature"`.
pub fn rel_signature() -> (r: Vec<u8>)
    ensures
        r@ == spec_rel_signature(),
{
    let a: [u8; 9] = [115, 105, 103, 110, 97, 116, 117, 114, 101];
    crate::text::to_vec(a.as_slice())
}

/// The text `"hash"`.
pub open spec fn spec_rel_hash() -> Seq<u8> {
    seq![104u8, 97u8, 115u8, 104u8]
}

/// The text `"hash"`.
pub fn rel_hash() -> (r: Vec<u8>)
    ensures
        r@ == spec_rel_hash(),
{
    let a: [u8; 4] = [104, 97, 115, 104];
    crate::text::to_vec(a.as_slice())
}

} // verus!
