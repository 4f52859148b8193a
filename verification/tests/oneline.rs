use eyre::WrapErr;
use oneline_eyre::Handler;
use oneline_eyre::InstallSlot;
use oneline_eyre::install;

struct Shown<'a> {
    handler: &'a Handler,
    error: &'a (dyn std::error::Error + 'static),
}

impl std::fmt::Debug for Shown<'_> {
    fn fmt(&self, f: &mut std::fmt::Formatter<'_>) -> std::fmt::Result {
        if f.alternate() {
            return std::fmt::Debug::fmt(self.error, f);
        }
        let mut messages = vec![self.error.to_string()];
        let mut source = self.error.source();
        while let Some(cause) = source {
            messages.push(cause.to_string());
            source = cause.source();
        }
        f.write_str(&self.handler.render(&messages))
    }
}

#[test]
fn ok() {
    let mut slot = InstallSlot::empty();
    install(&mut slot).unwrap();

    let error: eyre::Report = eyre::Report::msg("cause");
    let wrapped: Result<(), eyre::Report> = Err(error).wrap_err("middle").wrap_err("outer");

    let report = wrapped.unwrap_err();
    let shown = Shown { handler: slot.handler().unwrap(), error: report.as_ref() };
    let output = format!("{:?}", shown);
    assert_eq!(output, "outer: middle: cause");
}
