//! Tests for the network-event actor model and image packaging.

use custom_properties::devtools::{ActorMessageStatus, NetworkEventActor};
use custom_properties::image::{
    byte_swap, byte_swap_and_premultiply, finish_general_decode, finish_jpeg_decode, is_gif,
    is_jpeg, PixelFormat,
};

#[test]
fn actor_records_request_and_response() {
    let mut actor = NetworkEventActor::new("net1".to_string());
    assert_eq!(actor.name(), "net1".to_string());
    actor.add_request("http://a.example/".to_string(), "POST".to_string(), Some(vec![1, 2]));
    actor.add_response(Some(200), Some("OK".to_string()), None);
    let ev = actor.event_actor();
    assert_eq!(ev.actor, "net1".to_string());
    assert_eq!(ev.url, "http://a.example/".to_string());
    assert_eq!(ev.method, "POST".to_string());
    assert_eq!(ev.startedDateTime, "2015-04-22T20:47:08.545Z".to_string());
    assert!(!ev.isXHR);
    assert!(!ev.private);
}

#[test]
fn actor_response_start_is_the_placeholder() {
    let actor = NetworkEventActor::new("net2".to_string());
    let msg = actor.response_start();
    assert_eq!(msg.httpVersion, "HTTP/1.1".to_string());
    assert_eq!(msg.remoteAddress, "63.245.217.43".to_string());
    assert_eq!(msg.remotePort, 443);
    assert_eq!(msg.status, "200".to_string());
    assert_eq!(msg.statusText, "OK".to_string());
    assert_eq!(msg.headersSize, 337);
    assert!(msg.discardResponseBody);
}

#[test]
fn actor_answers_header_queries_only() {
    let actor = NetworkEventActor::new("net3".to_string());
    let (status, reply) = actor.handle_message("getRequestHeaders");
    assert!(matches!(status, ActorMessageStatus::Processed));
    let reply = reply.unwrap();
    assert_eq!(reply.from, "net3".to_string());
    assert!(reply.headers.is_empty());
    assert_eq!(reply.headerSize, 10);
    assert_eq!(reply.rawHeaders, "Raw headers".to_string());

    let (status, reply) = actor.handle_message("getResponseContent");
    assert!(matches!(status, ActorMessageStatus::Ignored));
    assert!(reply.is_none());
}

#[test]
fn signatures_are_recognized() {
    assert!(is_gif(&b"GIF87a....".to_vec()));
    assert!(is_gif(&b"GIF89a".to_vec()));
    assert!(!is_gif(&b"GIF88a".to_vec()));
    assert!(!is_gif(&b"GIF8".to_vec()));
    assert!(is_jpeg(&vec![0xff, 0xd8, 0xff, 0xe0]));
    assert!(!is_jpeg(&vec![0xff, 0xd8]));
    assert!(!is_jpeg(&b"GIF89a".to_vec()));
}

#[test]
fn byte_swap_swaps_red_and_blue() {
    let mut data = vec![1, 2, 3, 4, 5, 6, 7, 8];
    byte_swap(&mut data);
    assert_eq!(data, vec![3, 2, 1, 4, 7, 6, 5, 8]);
}

#[test]
fn premultiply_scales_by_alpha() {
    let mut data = vec![10, 20, 30, 255, 100, 100, 100, 0];
    byte_swap_and_premultiply(&mut data);
    assert_eq!(data, vec![30, 20, 10, 255, 0, 0, 0, 0]);

    let mut data = vec![200, 100, 50, 128];
    byte_swap_and_premultiply(&mut data);
    // 50*128/255 = 25, 100*128/255 = 50, 200*128/255 = 100
    assert_eq!(data, vec![25, 50, 100, 128]);
}

#[test]
fn packaging_chooses_the_transformation() {
    let img = finish_general_decode(vec![10, 20, 30, 255], 1, 1);
    assert_eq!(img.width, 1);
    assert_eq!(img.height, 1);
    assert!(matches!(img.format, PixelFormat::RGBA8));
    assert_eq!(img.bytes, vec![30, 20, 10, 255]);

    // A plain JPEG only swaps channels.
    let jpeg = vec![0xff, 0xd8, 0xff, 0xe0];
    let img = finish_jpeg_decode(&jpeg, vec![10, 20, 30, 128], 1, 1);
    assert_eq!(img.bytes, vec![30, 20, 10, 128]);

    // A buffer with a GIF signature premultiplies too.
    let gif = b"GIF89a".to_vec();
    let img = finish_jpeg_decode(&gif, vec![10, 20, 30, 128], 1, 1);
    assert_eq!(img.bytes, vec![15, 10, 5, 128]);
}
