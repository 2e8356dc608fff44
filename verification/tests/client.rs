use ox::client::{
    build_list_executions_url, default_manual_origin, endpoint_url, execution_endpoint, runner_endpoint, step_endpoint,
    CxStateSnapshot, ListExecutionsFilter,
};
use ox::events::ExecutionOrigin;

#[test]
fn build_url_no_filters() {
    let f = ListExecutionsFilter::default();
    let url = build_list_executions_url("http://ox.local", &f);
    assert_eq!(url, "http://ox.local/api/executions");
}

#[test]
fn build_url_with_status() {
    let f = ListExecutionsFilter {
        status: Some("running".into()),
        ..Default::default()
    };
    let url = build_list_executions_url("http://ox.local", &f);
    assert_eq!(url, "http://ox.local/api/executions?status=running");
}

#[test]
fn build_url_with_workflow() {
    let f = ListExecutionsFilter {
        workflow: Some("consultation".into()),
        ..Default::default()
    };
    let url = build_list_executions_url("http://ox.local", &f);
    assert_eq!(url, "http://ox.local/api/executions?workflow=consultation");
}

#[test]
fn build_url_with_status_workflow_limit() {
    let f = ListExecutionsFilter {
        status: Some("running".into()),
        workflow: Some("consultation".into()),
        limit: Some(10),
        offset: None,
    };
    let url = build_list_executions_url("http://ox.local", &f);
    // Order follows declaration order: status, workflow, limit, offset.
    assert_eq!(
        url,
        "http://ox.local/api/executions?status=running&workflow=consultation&limit=10"
    );
}

#[test]
fn build_url_strips_trailing_slash_from_base() {
    let f = ListExecutionsFilter::default();
    let url = build_list_executions_url("http://ox.local/", &f);
    assert_eq!(url, "http://ox.local/api/executions");
}

#[test]
fn build_url_with_offset_alone() {
    let f = ListExecutionsFilter { offset: Some(0), ..Default::default() };
    assert_eq!(build_list_executions_url("http://x//", &f), "http://x/api/executions?offset=0");
}

#[test]
fn endpoints() {
    assert_eq!(endpoint_url("http://x/", "/api/status"), "http://x/api/status");
    assert_eq!(step_endpoint("e-1", "propose", "done"), "/api/executions/e-1/steps/propose/done");
    assert_eq!(execution_endpoint("e-1", "cancel"), "/api/executions/e-1/cancel");
    assert_eq!(runner_endpoint("run-1", "drain"), "/api/runners/run-1/drain");
}

#[test]
fn defaults() {
    assert_eq!(default_manual_origin(), ExecutionOrigin::Manual { user: None });
    assert!(CxStateSnapshot::default().nodes.is_empty());
}
