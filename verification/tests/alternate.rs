use eyre::WrapErr;
use oneline_eyre::Handler;

struct Rendered<'a> {
    handler: &'a Handler,
    error: &'a (dyn std::error::Error + 'static),
}

impl std::fmt::Debug for Rendered<'_> {
    fn fmt(&self, f: &mut std::fmt::Formatter<'_>) -> std::fmt::Result {
        if f.alternate() {
            return std::fmt::Debug::fmt(self.error, f);
        }
        let mut messages = vec![self.error.to_string()];
        let mut source = self.error.source();
        while let Some(cause) = source {
            messages.push(cause.to_string());
            source = cause.source();
        }
        f.write_str(&self.handler.render(&messages))
    }
}

#[test]
fn alternate_mode_bypasses_minimal_line() {
    let handler = Handler::new(": ");

    let error: eyre::Report = eyre::Report::msg("cause");
    let wrapped: Result<(), eyre::Report> = Err(error).wrap_err("outer");
    let report = wrapped.unwrap_err();

    let shown = Rendered { handler: &handler, error: report.as_ref() };
    let minimal = format!("{:?}", shown);
    let alternate = format!("{:#?}", shown);

    assert_eq!(minimal, "outer: cause");
    assert_ne!(alternate, minimal);
    assert!(!alternate.contains("outer: cause"));
}
