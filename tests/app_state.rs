use layers::docker::{DockerImage, DockerLayer};
use layers::dockerfile::{Dockerfile, DockerfileInstruction};
use layers::ui::{ActiveTab, LayersApp};

fn image() -> DockerImage {
    DockerImage {
        id: "sha256:1".to_string(),
        tags: vec!["alpine:latest".to_string()],
        layers: vec![DockerLayer {
            id: "l1".to_string(),
            created_by: "ADD file".to_string(),
            size: 5,
            created_at: "now".to_string(),
        }],
    }
}

#[test]
fn new_app_starts_empty() {
    let app = LayersApp::new();
    assert_eq!(app.active_tab, ActiveTab::ImageInspector);
    assert!(app.image.is_none());
    assert!(app.image_name.is_empty());
    assert!(!app.loading);
    assert!(app.error_message.is_none());
    assert!(app.dockerfile.is_none());
    assert!(app.dockerfile_analysis.is_empty());
}

#[test]
fn loading_clears_error() {
    let mut app = LayersApp::new();
    app.set_error("boom".to_string());
    assert_eq!(app.error_message.as_deref(), Some("boom"));
    assert!(!app.loading);
    app.set_loading(false);
    assert_eq!(app.error_message.as_deref(), Some("boom"));
    app.set_loading(true);
    assert!(app.loading);
    assert!(app.error_message.is_none());
}

#[test]
fn setting_image_ends_loading() {
    let mut app = LayersApp::new();
    app.set_image_name("alpine".to_string());
    app.set_loading(true);
    app.set_image(image());
    assert_eq!(app.image_name, "alpine");
    assert!(!app.loading);
    assert_eq!(app.image.as_ref().unwrap().layers.len(), 1);
}

#[test]
fn dockerfile_and_analysis_and_tabs() {
    let mut app = LayersApp::new();
    app.set_loading(true);
    app.set_dockerfile(Dockerfile {
        instructions: vec![DockerfileInstruction {
            instruction: "FROM".to_string(),
            arguments: "alpine".to_string(),
            line_number: 1,
        }],
        path: "Dockerfile".to_string(),
        base_image: Some("alpine".to_string()),
    });
    assert!(!app.loading);
    assert!(app.dockerfile.is_some());
    app.set_dockerfile_analysis(vec![("Base Image".to_string(), "alpine".to_string())]);
    assert_eq!(app.dockerfile_analysis.len(), 1);
    app.switch_tab(ActiveTab::DockerfileAnalyzer);
    assert_eq!(app.active_tab, ActiveTab::DockerfileAnalyzer);
}
