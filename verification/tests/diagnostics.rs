use bee_chess::diagnostics::{Diagnostic, DiagnosticBuffer, DiagnosticLevel, Diagnostics};

#[test]
fn new_buffer_drains_empty() {
    let mut buffer = DiagnosticBuffer::new();
    assert_eq!(buffer.drain(), Vec::new());
}

#[test]
fn emit_then_drain_returns_in_order() {
    let mut buffer = DiagnosticBuffer::new();
    buffer.emit(DiagnosticLevel::Info, "first");
    buffer.emit(DiagnosticLevel::Warn, "second");

    assert_eq!(
        buffer.drain(),
        vec![
            Diagnostic {
                level: DiagnosticLevel::Info,
                message: "first".to_string()
            },
            Diagnostic {
                level: DiagnosticLevel::Warn,
                message: "second".to_string()
            },
        ]
    );
}

#[test]
fn drain_clears_the_buffer() {
    let mut buffer = DiagnosticBuffer::new();
    buffer.emit(DiagnosticLevel::Debug, "one");
    buffer.drain();

    assert_eq!(buffer.drain(), Vec::new());
}

#[test]
fn accepts_owned_and_borrowed_strings() {
    let mut buffer = DiagnosticBuffer::new();
    buffer.emit(DiagnosticLevel::Info, "borrowed");
    buffer.emit(DiagnosticLevel::Info, String::from("owned"));
    buffer.emit(DiagnosticLevel::Info, format!("formatted {}", 42));

    let messages: Vec<String> = buffer.drain().into_iter().map(|d| d.message).collect();
    assert_eq!(messages, vec!["borrowed", "owned", "formatted 42"]);
}
