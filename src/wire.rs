//! Fixed byte strings of the HTTP wire format.
use vstd::prelude::*;

verus! {

/// `HTTP/1.1 `
pub open spec fn http_prefix() -> Seq<u8> {
    seq![72u8, 84, 84, 80, 47, 49, 46, 49, 32]
}

pub fn http_prefix_bytes() -> (r: Vec<u8>)
    ensures
        r@ == http_prefix(),
{
    let r = vec![72u8, 84, 84, 80, 47, 49, 46, 49, 32];
    assert(r@ =~= http_prefix());
    r
}

/// `: `
pub open spec fn colon_space() -> Seq<u8> {
    seq![58u8, 32]
}

pub fn colon_space_bytes() -> (r: Vec<u8>)
    ensures
        r@ == colon_space(),
{
    let r = vec![58u8, 32];
    assert(r@ =~= colon_space());
    r
}

/// `\r\n`
pub open spec fn crlf() -> Seq<u8> {
    seq![13u8, 10]
}

pub fn crlf_bytes() -> (r: Vec<u8>)
    ensures
        r@ == crlf(),
{
    let r = vec![13u8, 10];
    assert(r@ =~= crlf());
    r
}

/// ` `
pub open spec fn space() -> Seq<u8> {
    seq![32u8]
}

pub fn space_bytes() -> (r: Vec<u8>)
    ensures
        r@ == space(),
{
    let r = vec![32u8];
    assert(r@ =~= space());
    r
}

/// `Unknown`
pub open spec fn unknown_reason() -> Seq<u8> {
    seq![85u8, 110, 107, 110, 111, 119, 110]
}

pub fn unknown_reason_bytes() -> (r: Vec<u8>)
    ensures
        r@ == unknown_reason(),
{
    let r = vec![85u8, 110, 107, 110, 111, 119, 110];
    assert(r@ =~= unknown_reason());
    r
}

/// `content-length`
pub open spec fn content_length_name() -> Seq<u8> {
    seq![99u8, 111, 110, 116, 101, 110, 116, 45, 108, 101, 110, 103, 116, 104]
}

pub fn content_length_name_bytes() -> (r: Vec<u8>)
    ensures
        r@ == content_length_name(),
{
    let r = vec![99u8, 111, 110, 116, 101, 110, 116, 45, 108, 101, 110, 103, 116, 104];
    assert(r@ =~= content_length_name());
    r
}

/// `content-type`
pub open spec fn content_type_name() -> Seq<u8> {
    seq![99u8, 111, 110, 116, 101, 110, 116, 45, 116, 121, 112, 101]
}

pub fn content_type_name_bytes() -> (r: Vec<u8>)
    ensures
        r@ == content_type_name(),
{
    let r = vec![99u8, 111, 110, 116, 101, 110, 116, 45, 116, 121, 112, 101];
    assert(r@ =~= content_type_name());
    r
}

/// `date`
pub open spec fn date_name() -> Seq<u8> {
    seq![100u8, 97, 116, 101]
}

pub fn date_name_bytes() -> (r: Vec<u8>)
    ensures
        r@ == date_name(),
{
    let r = vec![100u8, 97, 116, 101];
    assert(r@ =~= date_name());
    r
}

/// `connection`
pub open spec fn connection_header() -> Seq<u8> {
    seq![99u8, 111, 110, 110, 101, 99, 116, 105, 111, 110]
}

pub fn connection_header_bytes() -> (r: Vec<u8>)
    ensures
        r@ == connection_header(),
{
    let r = vec![99u8, 111, 110, 110, 101, 99, 116, 105, 111, 110];
    assert(r@ =~= connection_header());
    r
}

/// `transfer-encoding`
pub open spec fn transfer_encoding_name() -> Seq<u8> {
    seq![116u8, 114, 97, 110, 115, 102, 101, 114, 45, 101, 110, 99, 111, 100, 105, 110, 103]
}

pub fn transfer_encoding_name_bytes() -> (r: Vec<u8>)
    ensures
        r@ == transfer_encoding_name(),
{
    let r = vec![116u8, 114, 97, 110, 115, 102, 101, 114, 45, 101, 110, 99, 111, 100, 105, 110, 103];
    assert(r@ =~= transfer_encoding_name());
    r
}

/// `chunked`
pub open spec fn chunked_token() -> Seq<u8> {
    seq![99u8, 104, 117, 110, 107, 101, 100]
}

pub fn chunked_token_bytes() -> (r: Vec<u8>)
    ensures
        r@ == chunked_token(),
{
    let r = vec![99u8, 104, 117, 110, 107, 101, 100];
    assert(r@ =~= chunked_token());
    r
}

/// `text/plain`
pub open spec fn text_plain() -> Seq<u8> {
    seq![116u8, 101, 120, 116, 47, 112, 108, 97, 105, 110]
}

pub fn text_plain_bytes() -> (r: Vec<u8>)
    ensures
        r@ == text_plain(),
{
    let r = vec![116u8, 101, 120, 116, 47, 112, 108, 97, 105, 110];
    assert(r@ =~= text_plain());
    r
}

/// `text/html`
pub open spec fn text_html() -> Seq<u8> {
    seq![116u8, 101, 120, 116, 47, 104, 116, 109, 108]
}

pub fn text_html_bytes() -> (r: Vec<u8>)
    ensures
        r@ == text_html(),
{
    let r = vec![116u8, 101, 120, 116, 47, 104, 116, 109, 108];
    assert(r@ =~= text_html());
    r
}

/// `application/json`
pub open spec fn application_json() -> Seq<u8> {
    seq![97u8, 112, 112, 108, 105, 99, 97, 116, 105, 111, 110, 47, 106, 115, 111, 110]
}

pub fn application_json_bytes() -> (r: Vec<u8>)
    ensures
        r@ == application_json(),
{
    let r = vec![97u8, 112, 112, 108, 105, 99, 97, 116, 105, 111, 110, 47, 106, 115, 111, 110];
    assert(r@ =~= application_json());
    r
}

/// `Internal Server Error`
pub open spec fn internal_error_text() -> Seq<u8> {
    seq![73u8, 110, 116, 101, 114, 110, 97, 108, 32, 83, 101, 114, 118, 101, 114, 32, 69, 114, 114, 111, 114]
}

pub fn internal_error_text_bytes() -> (r: Vec<u8>)
    ensures
        r@ == internal_error_text(),
{
    let r = vec![73u8, 110, 116, 101, 114, 110, 97, 108, 32, 83, 101, 114, 118, 101, 114, 32, 69, 114, 114, 111, 114];
    assert(r@ =~= internal_error_text());
    r
}

/// `404 Not Found`
pub open spec fn not_found_text() -> Seq<u8> {
    seq![52u8, 48, 52, 32, 78, 111, 116, 32, 70, 111, 117, 110, 100]
}

pub fn not_found_text_bytes() -> (r: Vec<u8>)
    ensures
        r@ == not_found_text(),
{
    let r = vec![52u8, 48, 52, 32, 78, 111, 116, 32, 70, 111, 117, 110, 100];
    assert(r@ =~= not_found_text());
    r
}

/// `x-content-type-options`
pub open spec fn nosniff_name() -> Seq<u8> {
    seq![120u8, 45, 99, 111, 110, 116, 101, 110, 116, 45, 116, 121, 112, 101, 45, 111, 112, 116, 105, 111, 110, 115]
}

pub fn nosniff_name_bytes() -> (r: Vec<u8>)
    ensures
        r@ == nosniff_name(),
{
    let r = vec![120u8, 45, 99, 111, 110, 116, 101, 110, 116, 45, 116, 121, 112, 101, 45, 111, 112, 116, 105, 111, 110, 115];
    assert(r@ =~= nosniff_name());
    r
}

/// `nosniff`
pub open spec fn nosniff_value() -> Seq<u8> {
    seq![110u8, 111, 115, 110, 105, 102, 102]
}

pub fn nosniff_value_bytes() -> (r: Vec<u8>)
    ensures
        r@ == nosniff_value(),
{
    let r = vec![110u8, 111, 115, 110, 105, 102, 102];
    assert(r@ =~= nosniff_value());
    r
}

/// `x-frame-options`
pub open spec fn frame_options_name() -> Seq<u8> {
    seq![120u8, 45, 102, 114, 97, 109, 101, 45, 111, 112, 116, 105, 111, 110, 115]
}

pub fn frame_options_name_bytes() -> (r: Vec<u8>)
    ensures
        r@ == frame_options_name(),
{
    let r = vec![120u8, 45, 102, 114, 97, 109, 101, 45, 111, 112, 116, 105, 111, 110, 115];
    assert(r@ =~= frame_options_name());
    r
}

/// `DENY`
pub open spec fn deny_value() -> Seq<u8> {
    seq![68u8, 69, 78, 89]
}

pub fn deny_value_bytes() -> (r: Vec<u8>)
    ensures
        r@ == deny_value(),
{
    let r = vec![68u8, 69, 78, 89];
    assert(r@ =~= deny_value());
    r
}

/// `access-control-allow-origin`
pub open spec fn allow_origin_name() -> Seq<u8> {
    seq![97u8, 99, 99, 101, 115, 115, 45, 99, 111, 110, 116, 114, 111, 108, 45, 97, 108, 108, 111, 119, 45, 111, 114, 105, 103, 105, 110]
}

pub fn allow_origin_name_bytes() -> (r: Vec<u8>)
    ensures
        r@ == allow_origin_name(),
{
    let r = vec![97u8, 99, 99, 101, 115, 115, 45, 99, 111, 110, 116, 114, 111, 108, 45, 97, 108, 108, 111, 119, 45, 111, 114, 105, 103, 105, 110];
    assert(r@ =~= allow_origin_name());
    r
}

/// `403 Forbidden`
pub open spec fn forbidden_text() -> Seq<u8> {
    seq![52u8, 48, 51, 32, 70, 111, 114, 98, 105, 100, 100, 101, 110]
}

pub fn forbidden_text_bytes() -> (r: Vec<u8>)
    ensures
        r@ == forbidden_text(),
{
    let r = vec![52u8, 48, 51, 32, 70, 111, 114, 98, 105, 100, 100, 101, 110];
    assert(r@ =~= forbidden_text());
    r
}

/// `500 Internal Server Error`
pub open spec fn server_error_text() -> Seq<u8> {
    seq![53u8, 48, 48, 32, 73, 110, 116, 101, 114, 110, 97, 108, 32, 83, 101, 114, 118, 101, 114, 32, 69, 114, 114, 111, 114]
}

pub fn server_error_text_bytes() -> (r: Vec<u8>)
    ensures
        r@ == server_error_text(),
{
    let r = vec![53u8, 48, 48, 32, 73, 110, 116, 101, 114, 110, 97, 108, 32, 83, 101, 114, 118, 101, 114, 32, 69, 114, 114, 111, 114];
    assert(r@ =~= server_error_text());
    r
}

} // verus!
