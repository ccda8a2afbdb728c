use blackjack_rooms::message::{input_message, message, Message, BAD_REQUEST, OK};

fn sent(status: &str, content: &str) -> Message {
    Message { status: status.to_string(), content: content.to_string() }
}

#[test]
fn message_is_the_fixed_one() {
    let msg = message();
    assert_eq!(msg.status, "success");
    assert_eq!(msg.content, "Esta é uma mensagem JSON.");
}

#[test]
fn accepted_message_is_received() {
    let (code, reply) = input_message(sent("success", "hello"));
    assert_eq!(code, 200);
    assert_eq!(code, OK);
    assert_eq!(reply.status, "received");
    assert_eq!(reply.content, "Mensagem recebida: hello");
}

#[test]
fn other_status_is_an_error() {
    for status in ["failure", "", "Success", "success ", "received", "error"] {
        let (code, reply) = input_message(sent(status, "hello"));
        assert_eq!(code, 400);
        assert_eq!(code, BAD_REQUEST);
        assert_eq!(reply.status, "error");
        assert_eq!(reply.content, "Mensagem recebida: hello");
    }
}

#[test]
fn empty_content_keeps_the_opening() {
    let (code, reply) = input_message(sent("success", ""));
    assert_eq!(code, 200);
    assert_eq!(reply.content, "Mensagem recebida: ");
}

#[test]
fn message_passes_its_own_check() {
    let (code, reply) = input_message(message());
    assert_eq!(code, 200);
    assert_eq!(reply.status, "received");
    assert_eq!(reply.content, "Mensagem recebida: Esta é uma mensagem JSON.");
}
