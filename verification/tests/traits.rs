use ymir::stage::PipelineStage;

/// A stage with concrete types: doubles its input.
struct DoubleStage;

impl PipelineStage for DoubleStage {
    type Input = f64;
    type Output = f64;
    type Config = ();

    fn name(&self) -> &'static str {
        "double"
    }

    fn execute(&self, input: &Self::Input, _config: &Self::Config) -> Self::Output {
        input * 2.0
    }
}

#[test]
fn pipeline_stage_concrete_types() {
    let stage = DoubleStage;
    assert_eq!(stage.name(), "double");
    assert!((stage.execute(&3.5, &()) - 7.0).abs() < 1e-10);
}
