use zeptoclaw::launch::Stream;
use zeptoclaw::text::decimal_text;
use zeptoclaw::tunnel::{
    is_healthy, start_step, CloudflareTunnel, CloudflareTunnelConfig, StartEvent, StartStep,
    ZeptoError, URL_TIMEOUT_SECS,
};

#[test]
fn test_new_default() {
    let tunnel = CloudflareTunnel::new(None);
    assert!(tunnel.config.is_none());
    assert!(tunnel.child.is_none());
    assert!(tunnel.url.is_none());
    assert_eq!(tunnel.name(), "cloudflare");
}

#[test]
fn test_new_with_config() {
    let config = CloudflareTunnelConfig {
        token: Some("my-token".into()),
    };
    let tunnel = CloudflareTunnel::new(Some(config));
    assert!(tunnel.config.is_some());
    assert_eq!(
        tunnel.config.as_ref().unwrap().token.as_deref(),
        Some("my-token")
    );
}

#[test]
fn test_health_check_no_child() {
    let tunnel = CloudflareTunnel::new(None);
    assert!(!tunnel.health_check());
}

#[test]
fn test_start_already_running() {
    let tunnel = CloudflareTunnel::new(None);
    assert!(tunnel.child.is_none());
    assert!(tunnel.plan_start(8080).is_ok());
}

#[test]
fn quick_tunnel_is_pointed_at_the_port() {
    for config in [None, Some(CloudflareTunnelConfig { token: None })] {
        let tunnel = CloudflareTunnel::new(config);
        let launch = tunnel.plan_start(8080).unwrap();
        assert_eq!(launch.program, "cloudflared");
        assert_eq!(launch.args, ["tunnel", "--url", "http://localhost:8080"]);
        assert!(launch.env.is_empty());
        assert!(!launch.clear_env);
        assert!(launch.workdir.is_none());
        assert!(!launch.own_process_group);
        assert_eq!(launch.stdin, Stream::Null);
        assert_eq!(launch.stdout, Stream::Piped);
        assert_eq!(launch.stderr, Stream::Piped);
    }
}

#[test]
fn token_goes_into_the_environment_only() {
    let tunnel = CloudflareTunnel::new(Some(CloudflareTunnelConfig {
        token: Some("my-token".into()),
    }));
    let launch = tunnel.plan_start(1).unwrap();
    assert_eq!(launch.args, ["tunnel", "run"]);
    assert_eq!(
        launch.env,
        [("TUNNEL_TOKEN".to_string(), "my-token".to_string())]
    );
    assert!(!launch.clear_env);
}

#[test]
fn ports_are_written_in_decimal() {
    for n in 0..=u16::MAX {
        assert_eq!(decimal_text(n), n.to_string());
    }
}

fn failure(event: StartEvent) -> String {
    match start_step(&event) {
        StartStep::Failed(ZeptoError::Config(text)) => text,
        step => panic!("{:?}", step),
    }
}

#[test]
fn start_goes_on_until_a_line_has_the_url() {
    assert_eq!(URL_TIMEOUT_SECS, 30);
    assert!(matches!(
        start_step(&StartEvent::Line("INF Requesting new quick Tunnel".into())),
        StartStep::KeepReading
    ));
    match start_step(&StartEvent::Line("| https://a.trycloudflare.com |".into())) {
        StartStep::Announced(url) => assert_eq!(url, "https://a.trycloudflare.com"),
        step => panic!("{:?}", step),
    }
}

#[test]
fn start_fails_with_the_reason() {
    assert_eq!(
        failure(StartEvent::SpawnFailed("No such file".into())),
        "Failed to start cloudflared (is it installed?): No such file"
    );
    assert_eq!(
        failure(StartEvent::NoStderr),
        "Failed to capture cloudflared stderr"
    );
    assert_eq!(
        failure(StartEvent::OutputEnded),
        "cloudflared exited without providing a tunnel URL"
    );
    assert_eq!(
        failure(StartEvent::TimedOut),
        "Timed out waiting for cloudflared tunnel URL (30s)"
    );
}

#[test]
fn health_is_having_an_identifier() {
    assert!(!is_healthy(None));
    assert!(!is_healthy(Some(None)));
    assert!(is_healthy(Some(Some(7))));
}

#[test]
fn running_tunnel_refuses_a_second_start_until_it_is_stopped() {
    let runtime = tokio::runtime::Builder::new_current_thread()
        .enable_all()
        .build()
        .unwrap();
    runtime.block_on(async {
        let child = tokio::process::Command::new("true").spawn().unwrap();
        let mut tunnel = CloudflareTunnel::new(None);
        let url = tunnel.started(child, "https://a.trycloudflare.com".into());
        assert_eq!(url, "https://a.trycloudflare.com");
        assert_eq!(tunnel.url.as_deref(), Some("https://a.trycloudflare.com"));
        assert!(tunnel.health_check());
        match tunnel.plan_start(8080) {
            Err(ZeptoError::Config(text)) => assert_eq!(text, "Cloudflare tunnel already running"),
            Ok(launch) => panic!("{:?}", launch),
        }
        tunnel.running_child().unwrap().wait().await.unwrap();
        assert!(!tunnel.health_check());
        assert!(tunnel.stopped().is_some());
        assert!(tunnel.running_child().is_none());
        assert!(tunnel.stopped().is_none());
        assert!(tunnel.child.is_none());
        assert!(tunnel.url.is_none());
        assert!(!tunnel.health_check());
        assert!(tunnel.plan_start(8080).is_ok());
    });
}
