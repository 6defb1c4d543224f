//! Run the seeded xterm/ECMA-48 spec-case table against the vendored oracle.

use rt_vt::conformance::{cases, run_spec_cases};
use rt_vt::vendored::Vendored;

#[test]
fn vendored_passes_the_spec_cases() {
    let fails = run_spec_cases::<Vendored>(&cases());
    assert!(fails.is_empty(), "spec-case failures ({}):\n{}", fails.len(), fails.join("\n"));
}
