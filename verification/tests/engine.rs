use scale_to_zero::classifier::{
    is_scalable_dst, parse_destination, testapp as classify, try_testapp, Truncated, Verdict,
    XdpAction,
};
use scale_to_zero::coordinator::{generate_node_id, is_leader, EtcdCoordinator};
use scale_to_zero::hpa::{
    build_manifest, capture_hpa_config, plan_recreation, DeleteOutcome, HPASuspensionController,
    HpaError, HpaSpecInfo, MetricInfo, RecreateOutcome, ResourceMetric,
};
use scale_to_zero::ipv4::{ipv4_to_string, is_loopback, parse_ipv4};
use scale_to_zero::kernel_map::{KernelMap, MAX_ENTRIES};
use scale_to_zero::models::{workload_kind, HPAConfig, PacketLog, ServiceData, WorkloadKind};
use scale_to_zero::priority::sort_by_priority;
use scale_to_zero::rate_limit::{decide_admission, Admission, RateLimiter};
use scale_to_zero::registry::{Registry, RegistryEntry};
use scale_to_zero::scaler::{
    find_service_ip_by_target, process_packet, scale_down, scale_service_by_ip, scale_up,
    store_scaled, sweep_step, update_service_by_target, ScaleUpError,
};
use scale_to_zero::sync::{all_keys_are_addresses, get_local_service_list, sync_data, MapOp};
use scale_to_zero::text::{from_chars, is_whitespace, split_bounds, to_chars, trim_bounds};

fn service(name: &str, namespace: &str, priority: i32, available: bool) -> ServiceData {
    ServiceData {
        scale_down_time: 60,
        last_packet_time: 100,
        kind: "deployment".to_string(),
        name: name.to_string(),
        namespace: namespace.to_string(),
        backend_available: available,
        dependencies: vec![],
        dependents: vec![],
        hpa_enabled: false,
        hpa_name: None,
        hpa_deleted: false,
        hpa_config: None,
        scaling_priority: priority,
    }
}

fn managed(mut data: ServiceData) -> ServiceData {
    data.hpa_enabled = true;
    data.hpa_name = Some("scaler".to_string());
    data.hpa_config = Some(HPAConfig {
        min_replicas: None,
        max_replicas: 5,
        target_cpu_utilization_percentage: None,
        metrics: None,
        behavior: None,
    });
    data
}

fn times(services: &Registry) -> Vec<i64> {
    services.snapshot_keys().iter().map(|k| services.get(k).unwrap().last_packet_time).collect()
}

fn three() -> Registry {
    let mut services = Registry::new();
    services.insert("10.0.0.1".into(), service("web", "shop", 50, true));
    services.insert("10.0.0.2".into(), service("db", "shop", 50, true));
    services.insert("10.0.0.3".into(), service("db", "lab", 50, true));
    services
}

#[test]
fn characters_round_trip() {
    let chars = to_chars("a/ü,😀");
    assert_eq!(chars, vec!['a', '/', 'ü', ',', '😀']);
    assert_eq!(from_chars(&chars, 0, 5), "a/ü,😀");
    assert_eq!(from_chars(&chars, 2, 3), "ü");
    assert_eq!(from_chars(&chars, 4, 4), "");
}

#[test]
fn white_space_is_the_unicode_property() {
    for c in [' ', '\t', '\n', '\u{b}', '\u{c}', '\r', '\u{85}', '\u{a0}', '\u{1680}', '\u{2003}',
        '\u{2028}', '\u{2029}', '\u{202f}', '\u{205f}', '\u{3000}']
    {
        assert!(is_whitespace(c));
        assert!(c.is_whitespace());
    }
    for c in ['a', '0', '\u{200b}', '\u{feff}', '\u{1c}', '_'] {
        assert_eq!(is_whitespace(c), c.is_whitespace());
    }
}

#[test]
fn trimming_matches_std() {
    for text in ["", "  ", " a ", "a", "\t a b \n", "\u{3000}x\u{a0}"] {
        let chars = to_chars(text);
        let (a, b) = trim_bounds(&chars, 0, chars.len());
        assert_eq!(from_chars(&chars, a, b), text.trim());
    }
}

#[test]
fn splitting_matches_std() {
    for text in ["", "a", "a,b", ",", "a,,b,", ",,"] {
        let chars = to_chars(text);
        let pieces: Vec<String> =
            split_bounds(&chars, ',').iter().map(|(a, b)| from_chars(&chars, *a, *b)).collect();
        let expected: Vec<String> = text.split(',').map(|s| s.to_string()).collect();
        assert_eq!(pieces, expected);
    }
}

#[test]
fn addresses_are_parsed() {
    assert_eq!(parse_ipv4("10.0.0.1"), Some(0x0A00_0001));
    assert_eq!(parse_ipv4("0.0.0.0"), Some(0));
    assert_eq!(parse_ipv4("255.255.255.255"), Some(u32::MAX));
    assert_eq!(parse_ipv4("192.168.1.20"), Some(0xC0A8_0114));
}

#[test]
fn malformed_addresses_are_refused() {
    for text in ["", "None", "10.0.0", "10.0.0.1.2", "10.0.0.256", "10.0.0.01", "10.0.0.-1",
        "10.0.0.", ".0.0.1", "10.0.0.1 ", "1000.0.0.1", "a.b.c.d", "10,0,0,1", "１.0.0.1"]
    {
        assert_eq!(parse_ipv4(text), None, "{}", text);
    }
}

#[test]
fn addresses_are_written() {
    assert_eq!(ipv4_to_string(0x0A00_0001), "10.0.0.1");
    assert_eq!(ipv4_to_string(0), "0.0.0.0");
    assert_eq!(ipv4_to_string(u32::MAX), "255.255.255.255");
    assert_eq!(ipv4_to_string(0xC0A8_0114), "192.168.1.20");
    assert_eq!(ipv4_to_string(0x7F00_0001), "127.0.0.1");
}

#[test]
fn written_addresses_are_read_back() {
    for addr in [0u32, 1, 9, 10, 99, 100, 255, 256, 0x0A00_0001, 0x6463_0A09, u32::MAX] {
        assert_eq!(parse_ipv4(&ipv4_to_string(addr)), Some(addr));
    }
}

#[test]
fn loopback_is_the_127_block() {
    assert!(is_loopback(0x7F00_0001));
    assert!(is_loopback(0x7FFF_FFFF));
    assert!(!is_loopback(0x7EFF_FFFF));
    assert!(!is_loopback(0x8000_0000));
    assert!(!is_loopback(0));
}

#[test]
fn kind_names() {
    assert_eq!(workload_kind("deployment"), Some(WorkloadKind::Deployment));
    assert_eq!(workload_kind("statefulset"), Some(WorkloadKind::StatefulSet));
    assert_eq!(workload_kind("stateful_set"), Some(WorkloadKind::StatefulSet));
    assert_eq!(workload_kind("daemonset"), None);
    assert_eq!(workload_kind("Deployment"), None);
    assert_eq!(WorkloadKind::Deployment.as_string(), "deployment");
    assert_eq!(WorkloadKind::StatefulSet.as_string(), "statefulset");
}

#[test]
fn registry_insert_replaces_in_place() {
    let mut services = three();
    assert_eq!(services.len(), 3);
    services.insert("10.0.0.2".into(), service("cache", "shop", 1, false));
    assert_eq!(services.len(), 3);
    assert_eq!(services.snapshot_keys(), vec!["10.0.0.1", "10.0.0.2", "10.0.0.3"]);
    assert_eq!(services.get("10.0.0.2").unwrap().name, "cache");
    assert_eq!(services.key_at(1), "10.0.0.2");
    assert_eq!(services.data_at(2).namespace, "lab");
    assert_eq!(services.position("10.0.0.3"), Some(2));
    assert_eq!(services.position("10.0.0.30"), None);
    assert!(services.contains("10.0.0.1"));
    assert!(!services.contains("10.0.0."));
    assert_eq!(services.get("nowhere"), None);
}

#[test]
fn target_by_address_touches_that_entry_only() {
    let mut services = three();
    update_service_by_target(&mut services, "10.0.0.2", 500, "10.0.0.1", "dependency");
    assert_eq!(times(&services), vec![100, 500, 100]);
}

#[test]
fn target_by_name_touches_every_namespace() {
    let mut services = three();
    update_service_by_target(&mut services, "db", 500, "10.0.0.1", "dependent");
    assert_eq!(times(&services), vec![100, 500, 500]);
}

#[test]
fn target_by_namespace_and_name() {
    let mut services = three();
    update_service_by_target(&mut services, "lab/db", 500, "10.0.0.1", "dependency");
    assert_eq!(times(&services), vec![100, 100, 500]);
    update_service_by_target(&mut services, "shop/lab/db", 900, "10.0.0.1", "dependency");
    update_service_by_target(&mut services, "nobody", 900, "10.0.0.1", "dependency");
    update_service_by_target(&mut services, "db/", 900, "10.0.0.1", "dependency");
    assert_eq!(times(&services), vec![100, 100, 500]);
}

#[test]
fn dependency_update_is_forced_on_a_suspended_service() {
    let mut services = Registry::new();
    services.insert("10.0.0.1".into(), managed(service("db", "shop", 50, false)));
    update_service_by_target(&mut services, "legacy-target", 300, "x", "legacy");
    update_service_by_target(&mut services, "db", 300, "x", "legacy");
    assert_eq!(times(&services), vec![100]);
    update_service_by_target(&mut services, "10.0.0.1", 300, "x", "legacy");
    assert_eq!(times(&services), vec![100]);
    update_service_by_target(&mut services, "db", 400, "x", "dependency");
    assert_eq!(times(&services), vec![400]);
    update_service_by_target(&mut services, "10.0.0.1", 500, "x", "dependent");
    assert_eq!(times(&services), vec![500]);
}

#[test]
fn other_relationship_updates_an_available_service() {
    let mut services = Registry::new();
    services.insert("10.0.0.1".into(), managed(service("db", "shop", 50, true)));
    services.insert("10.0.0.2".into(), service("db", "lab", 50, false));
    update_service_by_target(&mut services, "db", 300, "x", "legacy");
    assert_eq!(times(&services), vec![300, 300]);
}

#[test]
fn loopback_packet_is_ignored() {
    let mut services = Registry::new();
    services.insert("127.0.0.1".into(), service("local", "shop", 50, false));
    let wake = process_packet(&mut services, PacketLog { ipv4_address: 0x7F00_0001, action: 1 }, 9);
    assert_eq!(wake, None);
    assert_eq!(times(&services), vec![100]);
}

#[test]
fn packet_marks_service_dependencies_and_dependents() {
    let mut services = three();
    let mut gateway = service("gateway", "edge", 10, true);
    gateway.dependencies = vec!["lab/db".to_string(), "missing".to_string()];
    gateway.dependents = vec!["10.0.0.1".to_string()];
    services.insert("10.0.0.9".into(), gateway);
    let wake = process_packet(&mut services, PacketLog { ipv4_address: 0x0A00_0009, action: 0 }, 700);
    assert_eq!(wake, None);
    assert_eq!(times(&services), vec![700, 100, 700, 700]);
}

#[test]
fn packet_for_unknown_address_changes_nothing_but_may_wake() {
    let mut services = three();
    let wake = process_packet(&mut services, PacketLog { ipv4_address: 0x0A00_0063, action: 1 }, 700);
    assert_eq!(wake, Some("10.0.0.99".to_string()));
    assert_eq!(times(&services), vec![100, 100, 100]);
    let wake = process_packet(&mut services, PacketLog { ipv4_address: 0x0A00_0063, action: 2 }, 700);
    assert_eq!(wake, None);
}

#[test]
fn packet_time_does_not_go_back_with_a_steady_clock() {
    let mut services = three();
    let mut before = times(&services);
    for (now, addr) in [(100, 0x0A00_0001u32), (150, 0x0A00_0002), (150, 0x0A00_0003), (900, 0x0A00_0001)] {
        process_packet(&mut services, PacketLog { ipv4_address: addr, action: 0 }, now);
        let after = times(&services);
        assert!(before.iter().zip(&after).all(|(b, a)| a >= b));
        before = after;
    }
}

#[test]
fn target_resolution() {
    let services = three();
    assert_eq!(find_service_ip_by_target(&services, "10.0.0.3"), Some("10.0.0.3".to_string()));
    assert_eq!(find_service_ip_by_target(&services, "db"), Some("10.0.0.2".to_string()));
    assert_eq!(find_service_ip_by_target(&services, "lab/db"), Some("10.0.0.3".to_string()));
    assert_eq!(find_service_ip_by_target(&services, "lab/web"), None);
    assert_eq!(find_service_ip_by_target(&services, "a/b/c"), None);
    assert_eq!(find_service_ip_by_target(&services, ""), None);
}

#[test]
fn sorting_is_stable_in_both_directions() {
    let entry = |ip: &str, p: i32| RegistryEntry { ip: ip.to_string(), data: service(ip, "n", p, true) };
    let items = || vec![entry("a", 50), entry("b", 10), entry("c", 50), entry("d", 95), entry("e", 10)];
    let up: Vec<String> = sort_by_priority(items(), false).into_iter().map(|e| e.ip).collect();
    assert_eq!(up, vec!["b", "e", "a", "c", "d"]);
    let down: Vec<String> = sort_by_priority(items(), true).into_iter().map(|e| e.ip).collect();
    assert_eq!(down, vec!["d", "a", "c", "b", "e"]);
    assert!(sort_by_priority(vec![], true).is_empty());
}

#[test]
fn wake_up_lists_cold_relatives_only() {
    let mut services = Registry::new();
    let mut api = service("api", "shop", 40, true);
    api.dependencies = vec!["db".into(), "cache".into(), "ghost".into()];
    api.dependents = vec!["gateway".into(), "10.0.0.5".into()];
    services.insert("10.0.0.1".into(), api);
    services.insert("10.0.0.2".into(), service("db", "shop", 95, false));
    services.insert("10.0.0.3".into(), service("cache", "shop", 90, true));
    services.insert("10.0.0.4".into(), service("gateway", "shop", 10, false));
    services.insert("10.0.0.5".into(), service("admin", "shop", 10, false));
    let mut limiter = RateLimiter::new();
    let plan = scale_up(&services, &mut limiter, "10.0.0.1", 0).unwrap();
    let order: Vec<&str> = plan.iter().map(|e| e.data.name.as_str()).collect();
    assert_eq!(order, vec!["db", "api", "gateway", "admin"]);
    assert!(plan.windows(2).all(|w| w[0].data.scaling_priority >= w[1].data.scaling_priority));
}

#[test]
fn rate_limit_is_per_address_and_five_seconds() {
    let mut services = Registry::new();
    services.insert("10.0.0.1".into(), service("a", "n", 50, false));
    services.insert("10.0.0.2".into(), service("b", "n", 50, false));
    let mut limiter = RateLimiter::new();
    let start: u128 = 1_700_000_000_000_000_000;
    assert!(scale_up(&services, &mut limiter, "10.0.0.1", start).is_ok());
    assert!(scale_up(&services, &mut limiter, "10.0.0.2", start + 1).is_ok());
    assert_eq!(
        scale_up(&services, &mut limiter, "10.0.0.1", start + 4_999_999_999).unwrap_err(),
        ScaleUpError::RateLimited
    );
    assert_eq!(limiter.last_called("10.0.0.1"), Some(start));
    assert!(scale_up(&services, &mut limiter, "10.0.0.1", start + 5_000_000_000).is_ok());
    assert_eq!(limiter.last_called("10.0.0.1"), Some(start + 5_000_000_000));
    assert_eq!(limiter.last_called("10.0.0.3"), None);
}

#[test]
fn rate_limit_message_has_its_prefix() {
    let text = ScaleUpError::RateLimited.message();
    assert!(text.starts_with("Rate Limited: Function "));
    assert_eq!(
        text,
        "Rate Limited: Function can only be called once every 5 seconds per service_ip"
    );
    assert!(!ScaleUpError::ClockWentBack.message().starts_with("Rate Limited: Function "));
}

#[test]
fn clock_going_back_is_reported() {
    let mut services = Registry::new();
    services.insert("10.0.0.1".into(), service("a", "n", 50, false));
    let mut limiter = RateLimiter::new();
    assert!(scale_up(&services, &mut limiter, "10.0.0.1", 1000).is_ok());
    assert_eq!(
        scale_up(&services, &mut limiter, "10.0.0.1", 999).unwrap_err(),
        ScaleUpError::ClockWentBack
    );
    assert!(matches!(decide_admission(None, 0), Admission::Admitted));
    assert!(matches!(decide_admission(Some(5), 4), Admission::ClockWentBack));
    assert!(matches!(decide_admission(Some(5), 5), Admission::Limited));
}

#[test]
fn scale_step_for_each_kind() {
    let mut services = Registry::new();
    let mut set = service("db", "data", 50, false);
    set.kind = "statefulset".into();
    services.insert("10.0.0.1".into(), managed(set));
    let mut odd = service("job", "data", 50, false);
    odd.kind = "cronjob".into();
    services.insert("10.0.0.2".into(), odd);
    let step = scale_service_by_ip(&services, "10.0.0.1").unwrap();
    assert_eq!(step.patch.unwrap().kind, WorkloadKind::StatefulSet);
    assert!(step.recreate_autoscaler);
    assert!(step.service.backend_available);
    let step = scale_service_by_ip(&services, "10.0.0.2").unwrap();
    assert!(step.patch.is_none());
    assert!(!step.recreate_autoscaler);
    assert!(scale_service_by_ip(&services, "10.0.0.3").is_none());
}

#[test]
fn storing_keeps_what_the_controller_wrote() {
    let mut services = Registry::new();
    services.insert("10.0.0.1".into(), managed(service("web", "shop", 50, true)));
    let planned = sweep_step(&services.get("10.0.0.1").unwrap(), 1000).service;
    let mut live = services.get("10.0.0.1").unwrap();
    live.hpa_deleted = true;
    live.last_packet_time = 999;
    services.insert("10.0.0.1".into(), live);
    store_scaled(&mut services, "10.0.0.1", planned);
    let stored = services.get("10.0.0.1").unwrap();
    assert!(!stored.backend_available);
    assert!(stored.hpa_deleted);
    assert_eq!(stored.last_packet_time, 100);
    store_scaled(&mut services, "10.0.0.7", service("x", "y", 1, true));
    assert_eq!(services.len(), 1);
}

#[test]
fn sweep_decisions() {
    let idle = service("web", "shop", 50, true);
    assert!(!sweep_step(&idle, 160).scale_to_zero);
    let step = sweep_step(&idle, 161);
    assert!(step.scale_to_zero);
    assert!(!step.delete_autoscaler_first);
    assert!(!step.delete_orphaned_autoscaler);
    assert_eq!(step.patch.unwrap().replicas, 0);
    assert!(!step.service.backend_available);

    let away = service("web", "shop", 50, false);
    let step = sweep_step(&away, 10_000);
    assert!(!step.scale_to_zero);
    assert!(step.patch.is_none());

    let orphan = managed(service("web", "shop", 50, false));
    let step = sweep_step(&orphan, 10_000);
    assert!(step.delete_orphaned_autoscaler);
    assert!(!step.scale_to_zero);

    let mut suspended = managed(service("web", "shop", 50, false));
    suspended.hpa_deleted = true;
    assert!(!sweep_step(&suspended, 10_000).delete_orphaned_autoscaler);

    let mut gone = managed(service("web", "shop", 50, true));
    gone.hpa_deleted = true;
    let step = sweep_step(&gone, 10_000);
    assert!(step.scale_to_zero);
    assert!(!step.delete_autoscaler_first);
}

#[test]
fn sweep_does_not_overflow_at_the_ends_of_time() {
    let mut old = service("web", "shop", 50, true);
    old.last_packet_time = i64::MIN;
    old.scale_down_time = i64::MAX;
    assert!(sweep_step(&old, i64::MAX).scale_to_zero);
    old.last_packet_time = i64::MAX;
    assert!(!sweep_step(&old, i64::MIN).scale_to_zero);
}

#[test]
fn sweep_order_is_ascending() {
    let mut services = Registry::new();
    services.insert("10.0.0.1".into(), service("c", "n", 95, true));
    services.insert("10.0.0.2".into(), service("p", "n", 10, true));
    services.insert("10.0.0.3".into(), service("m", "n", 50, true));
    services.insert("10.0.0.4".into(), service("q", "n", 10, true));
    let order: Vec<String> = scale_down(&services).into_iter().map(|e| e.data.name).collect();
    assert_eq!(order, vec!["p", "q", "m", "c"]);
}

fn cpu(name: &str, kind: &str, target: Option<i32>) -> MetricInfo {
    MetricInfo {
        type_: kind.to_string(),
        resource: Some(ResourceMetric { name: name.to_string(), average_utilization: target }),
    }
}

#[test]
fn capture_takes_the_first_cpu_metric() {
    let spec = HpaSpecInfo {
        min_replicas: Some(2),
        max_replicas: 7,
        metrics: Some(vec![
            MetricInfo { type_: "Pods".into(), resource: None },
            cpu("memory", "Resource", Some(50)),
            cpu("cpu", "External", Some(51)),
            MetricInfo { type_: "Resource".into(), resource: None },
            cpu("cpu", "Resource", Some(75)),
            cpu("cpu", "Resource", Some(90)),
        ]),
        metrics_json: Some("[{\"type\":\"Pods\"}]".into()),
        behavior_json: Some("{\"scaleDown\":{}}".into()),
    };
    let config = capture_hpa_config(&Some(spec));
    assert_eq!(
        config,
        HPAConfig {
            min_replicas: Some(2),
            max_replicas: 7,
            target_cpu_utilization_percentage: Some(75),
            metrics: Some("[{\"type\":\"Pods\"}]".into()),
            behavior: Some("{\"scaleDown\":{}}".into()),
        }
    );
}

#[test]
fn capture_does_not_look_past_a_cpu_metric_without_target() {
    let spec = HpaSpecInfo {
        min_replicas: None,
        max_replicas: 3,
        metrics: Some(vec![cpu("cpu", "Resource", None), cpu("cpu", "Resource", Some(90))]),
        metrics_json: None,
        behavior_json: None,
    };
    assert_eq!(capture_hpa_config(&Some(spec)).target_cpu_utilization_percentage, None);
}

#[test]
fn capture_without_spec_gives_the_defaults() {
    assert_eq!(
        capture_hpa_config(&None),
        HPAConfig {
            min_replicas: Some(1),
            max_replicas: 5,
            target_cpu_utilization_percentage: Some(80),
            metrics: None,
            behavior: None,
        }
    );
}

#[test]
fn manifest_reproduces_what_was_captured() {
    let spec = HpaSpecInfo {
        min_replicas: Some(2),
        max_replicas: 7,
        metrics: Some(vec![cpu("cpu", "Resource", Some(75))]),
        metrics_json: Some("[1]".into()),
        behavior_json: Some("{}".into()),
    };
    let config = capture_hpa_config(&Some(spec));
    let manifest = build_manifest("shop", "web-hpa", "web", &config, "now".to_string());
    assert_eq!(manifest.name, "web-hpa");
    assert_eq!(manifest.namespace, "shop");
    assert_eq!(manifest.target_api_version, "apps/v1");
    assert_eq!(manifest.target_kind, "Deployment");
    assert_eq!(manifest.target_name, "web");
    assert_eq!(manifest.min_replicas, Some(2));
    assert_eq!(manifest.max_replicas, 7);
    assert_eq!(manifest.cpu_utilization, Some(75));
    assert_eq!(manifest.custom_metrics, Some("[1]".to_string()));
    assert_eq!(manifest.behavior, Some("{}".to_string()));
    assert_eq!(manifest.recreated_at, "now");
}

#[test]
fn recreation_is_stamped_in_rfc_3339() {
    let config = capture_hpa_config(&None);
    let manifest = plan_recreation("shop", "web-hpa", "web", &config, 1_431_648_000, 0).unwrap();
    assert_eq!(manifest.recreated_at, "2015-05-15T00:00:00+00:00");
    let manifest = plan_recreation("shop", "web-hpa", "web", &config, 0, 500_000_000).unwrap();
    assert_eq!(manifest.recreated_at, "1970-01-01T00:00:00.500+00:00");
    assert!(plan_recreation("shop", "web-hpa", "web", &config, i64::MAX, 0).is_none());
}

#[test]
fn suspension_is_tracked() {
    let mut controller = HPASuspensionController::new();
    assert!(!controller.is_suspended("shop", "web-hpa"));
    assert_eq!(controller.delete_hpa("shop", "web-hpa", &DeleteOutcome::Missing), Ok(None));
    assert!(!controller.is_suspended("shop", "web-hpa"));
    let failed = DeleteOutcome::Found { spec: None, deleted: false };
    assert_eq!(controller.delete_hpa("shop", "web-hpa", &failed), Err(HpaError::DeleteFailed));
    assert!(!controller.is_suspended("shop", "web-hpa"));
    let done = DeleteOutcome::Found { spec: None, deleted: true };
    let kept = controller.delete_hpa("shop", "web-hpa", &done).unwrap().unwrap();
    assert_eq!(kept.max_replicas, 5);
    assert!(controller.is_suspended("shop", "web-hpa"));
    assert!(!controller.is_suspended("shop/web", "hpa"));
    assert!(!controller.is_suspended("shop", "web"));
    controller.delete_hpa("shop", "web-hpa", &done).unwrap();
    assert_eq!(
        controller.recreate_hpa("shop", "web-hpa", RecreateOutcome::StaleNotDeleted),
        Err(HpaError::DeleteFailed)
    );
    assert_eq!(
        controller.recreate_hpa("shop", "web-hpa", RecreateOutcome::NotCreated),
        Err(HpaError::CreateFailed)
    );
    assert!(controller.is_suspended("shop", "web-hpa"));
    assert_eq!(controller.recreate_hpa("shop", "web-hpa", RecreateOutcome::Created), Ok(()));
    assert!(!controller.is_suspended("shop", "web-hpa"));
}

#[test]
fn removal_is_recorded_for_the_service() {
    let controller = HPASuspensionController::new();
    let mut services = Registry::new();
    services.insert("10.0.0.1".into(), managed(service("web", "shop", 50, true)));
    services.insert("10.0.0.2".into(), service("db", "shop", 50, true));
    assert!(controller.autoscaler_to_delete(&services, "10.0.0.2").is_none());
    assert!(controller.autoscaler_to_delete(&services, "10.0.0.3").is_none());
    let due = controller.autoscaler_to_delete(&services, "10.0.0.1").unwrap();
    let failed = controller.delete_hpa_for_service(
        &mut services,
        "10.0.0.1",
        due.clone(),
        Err(HpaError::DeleteFailed),
    );
    assert_eq!(failed, Err(HpaError::DeleteFailed));
    assert!(!services.get("10.0.0.1").unwrap().hpa_deleted);
    controller.delete_hpa_for_service(&mut services, "10.0.0.1", due, Ok(None)).unwrap();
    let stored = services.get("10.0.0.1").unwrap();
    assert!(stored.hpa_deleted);
    assert_eq!(stored.hpa_config.unwrap().max_replicas, 5);
    assert!(controller.autoscaler_to_delete(&services, "10.0.0.1").is_none());
}

#[test]
fn recreation_is_recorded_for_the_service() {
    let controller = HPASuspensionController::new();
    let mut services = Registry::new();
    let mut data = managed(service("web", "shop", 50, true));
    data.hpa_deleted = true;
    services.insert("10.0.0.1".into(), data);
    services.insert("10.0.0.2".into(), service("db", "shop", 50, true));
    assert!(controller.autoscaler_to_recreate(&services, "10.0.0.2").is_none());
    assert!(controller.autoscaler_to_recreate(&services, "10.0.0.9").is_none());
    let due = controller.autoscaler_to_recreate(&services, "10.0.0.1").unwrap();
    let failed = controller.recreate_hpa_for_service(
        &mut services,
        "10.0.0.1",
        due.clone(),
        Err(HpaError::CreateFailed),
    );
    assert_eq!(failed, Err(HpaError::CreateFailed));
    assert!(services.get("10.0.0.1").unwrap().hpa_deleted);
    controller.recreate_hpa_for_service(&mut services, "10.0.0.1", due, Ok(())).unwrap();
    assert!(!services.get("10.0.0.1").unwrap().hpa_deleted);
}

fn frame(ether_type: [u8; 2], dst: [u8; 4], len: usize) -> Vec<u8> {
    let mut bytes = vec![0xEEu8; 64];
    bytes[12] = ether_type[0];
    bytes[13] = ether_type[1];
    bytes[30..34].copy_from_slice(&dst);
    bytes.truncate(len);
    bytes
}

#[test]
fn destination_is_read_within_bounds() {
    assert_eq!(parse_destination(&frame([8, 0], [10, 0, 0, 1], 64)), Ok(Some(0x0A00_0001)));
    assert_eq!(parse_destination(&frame([8, 0], [1, 2, 3, 4], 34)), Ok(Some(0x0102_0304)));
    assert_eq!(parse_destination(&frame([8, 0], [1, 2, 3, 4], 33)), Err(Truncated));
    assert_eq!(parse_destination(&frame([8, 0], [1, 2, 3, 4], 14)), Err(Truncated));
    assert_eq!(parse_destination(&frame([8, 0], [1, 2, 3, 4], 13)), Err(Truncated));
    assert_eq!(parse_destination(&[]), Err(Truncated));
    assert_eq!(parse_destination(&frame([0x86, 0xDD], [1, 2, 3, 4], 64)), Ok(None));
    assert_eq!(parse_destination(&frame([0x08, 0x06], [1, 2, 3, 4], 14)), Ok(None));
}

#[test]
fn frames_are_classified() {
    let mut table = KernelMap::new();
    table.insert(0x0A00_0001, 0);
    table.insert(0x0A00_0002, 1);
    assert_eq!(is_scalable_dst(&table, 0x0A00_0001), Some(0));
    assert_eq!(is_scalable_dst(&table, 0x0A00_0003), None);
    let cold = classify(&frame([8, 0], [10, 0, 0, 1], 64), &table);
    assert_eq!(
        cold,
        Verdict {
            action: XdpAction::Drop,
            event: Some(PacketLog { ipv4_address: 0x0A00_0001, action: 1 })
        }
    );
    let warm = classify(&frame([8, 0], [10, 0, 0, 2], 64), &table);
    assert_eq!(
        warm,
        Verdict {
            action: XdpAction::Pass,
            event: Some(PacketLog { ipv4_address: 0x0A00_0002, action: 0 })
        }
    );
    let other = classify(&frame([8, 0], [10, 0, 0, 3], 64), &table);
    assert_eq!(other, Verdict { action: XdpAction::Pass, event: None });
    let not_ip = classify(&frame([0x86, 0xDD], [10, 0, 0, 1], 64), &table);
    assert_eq!(not_ip, Verdict { action: XdpAction::Pass, event: None });
    let short = classify(&frame([8, 0], [10, 0, 0, 1], 20), &table);
    assert_eq!(short, Verdict { action: XdpAction::Aborted, event: None });
    assert_eq!(try_testapp(&frame([8, 0], [10, 0, 0, 1], 20), &table), Err(Truncated));
}

#[test]
fn kernel_map_is_bounded() {
    let mut table = KernelMap::new();
    for key in 0..MAX_ENTRIES as u32 {
        assert!(table.insert(key, 1));
    }
    assert_eq!(table.len(), MAX_ENTRIES);
    assert!(!table.insert(5000, 1));
    assert_eq!(table.get(5000), None);
    assert!(table.insert(7, 0));
    assert_eq!(table.get(7), Some(0));
    table.remove(8);
    table.remove(8);
    assert_eq!(table.len(), MAX_ENTRIES - 1);
    assert!(table.insert(5000, 1));
    assert_eq!(table.get(5000), Some(1));
    let mut keys = table.keys();
    keys.sort();
    keys.dedup();
    assert_eq!(keys.len(), MAX_ENTRIES);
}

#[test]
fn mirror_of_the_registry() {
    let mut services = three();
    services.insert("10.0.0.2".into(), service("db", "shop", 50, false));
    assert!(all_keys_are_addresses(&services));
    let mirror = get_local_service_list(&services);
    assert_eq!(mirror.len(), 3);
    assert_eq!(mirror[&0x0A00_0001], 1);
    assert_eq!(mirror[&0x0A00_0002], 0);
    assert_eq!(mirror[&0x0A00_0003], 1);
    services.insert("None".into(), service("headless", "shop", 50, false));
    assert!(!all_keys_are_addresses(&services));
}

#[test]
fn sync_upserts_then_removes() {
    let services = three();
    let mut table = KernelMap::new();
    table.insert(0x0A00_0001, 1);
    table.insert(0x0A00_0002, 0);
    table.insert(0x0B00_0000, 1);
    table.insert(0x0C00_0000, 0);
    let ops = sync_data(&services, &mut table);
    assert_eq!(
        ops,
        vec![
            MapOp::Upsert { key: 0x0A00_0002, value: 1 },
            MapOp::Upsert { key: 0x0A00_0003, value: 1 },
            MapOp::Remove { key: 0x0B00_0000 },
            MapOp::Remove { key: 0x0C00_0000 },
        ]
    );
    assert_eq!(table.len(), 3);
    for key in [0x0A00_0001, 0x0A00_0002, 0x0A00_0003] {
        assert_eq!(table.get(key), Some(1));
    }
    assert!(sync_data(&services, &mut table).is_empty());
}

#[test]
fn sync_into_a_full_table_holds_nothing_wrong() {
    let services = three();
    let mut table = KernelMap::new();
    for key in 0..MAX_ENTRIES as u32 {
        table.insert(key, 1);
    }
    sync_data(&services, &mut table);
    assert_eq!(table.len(), 0);
    sync_data(&services, &mut table);
    assert_eq!(table.len(), 3);
    assert_eq!(table.get(0x0A00_0002), Some(1));
}

#[test]
fn leadership() {
    assert!(!is_leader(&None));
    let mut coordinator = EtcdCoordinator::new("node-1".to_string());
    assert_eq!(coordinator.node_id, "node-1");
    assert!(!coordinator.is_leader());
    assert_eq!(coordinator.heartbeat_lease_id, None);
    assert_eq!(coordinator.leader_lease_id, None);
    coordinator.start();
    assert!(coordinator.is_leader());
    assert!(is_leader(&Some(coordinator)));
    assert!(!is_leader(&Some(EtcdCoordinator::new("node-2".to_string()))));
}

#[test]
fn node_id_is_host_and_start_time() {
    assert_eq!(generate_node_id("worker-3\n", 1_700_000_000), "worker-3-1700000000");
    assert_eq!(generate_node_id("unknown", 0), "unknown-0");
    assert_eq!(generate_node_id("  a b  ", 9), "a b-9");
    assert_eq!(generate_node_id("", u64::MAX), "-18446744073709551615");
    assert_eq!(generate_node_id("h", 1_000), format!("{}-{}", "h", 1_000u64));
}
