use scale_to_zero::classifier::{testapp, XdpAction};
use scale_to_zero::controller::{
    service_event, update_workload_status, Annotation, ServiceDecision, ServiceInfo, SkipReason,
    WorkloadBindings,
};
use scale_to_zero::hpa::{DeleteOutcome, HPASuspensionController, HpaSpecInfo};
use scale_to_zero::kernel_map::KernelMap;
use scale_to_zero::models::{HPAConfig, PacketLog, ServiceData, WorkloadKind};
use scale_to_zero::rate_limit::RateLimiter;
use scale_to_zero::registry::Registry;
use scale_to_zero::scaler::{
    process_packet, scale_down, scale_service_by_ip, scale_up, store_scaled, sweep_step,
    ScaleUpError,
};
use scale_to_zero::sync::{sync_data, MapOp};

const SECOND: u128 = 1_000_000_000;

fn service(name: &str, priority: i32, available: bool) -> ServiceData {
    ServiceData {
        scale_down_time: 60,
        last_packet_time: 1000,
        kind: "deployment".to_string(),
        name: name.to_string(),
        namespace: "default".to_string(),
        backend_available: available,
        dependencies: vec![],
        dependents: vec![],
        hpa_enabled: false,
        hpa_name: None,
        hpa_deleted: false,
        hpa_config: None,
        scaling_priority: priority,
    }
}

fn with_autoscaler(mut data: ServiceData) -> ServiceData {
    data.hpa_enabled = true;
    data.hpa_name = Some(format!("{}-hpa", data.name));
    data.hpa_config = Some(HPAConfig {
        min_replicas: Some(1),
        max_replicas: 5,
        target_cpu_utilization_percentage: Some(70),
        metrics: None,
        behavior: None,
    });
    data
}

fn frame_to(dst: [u8; 4]) -> Vec<u8> {
    let mut frame = vec![0u8; 34];
    frame[12] = 0x08;
    frame[13] = 0x00;
    frame[30..34].copy_from_slice(&dst);
    frame
}

fn annotated(name: &str, pairs: &[(&str, &str)]) -> ServiceInfo {
    ServiceInfo {
        name: name.to_string(),
        namespace: Some("default".to_string()),
        has_spec: true,
        cluster_ip: Some("10.0.0.1".to_string()),
        annotations: pairs
            .iter()
            .map(|(k, v)| Annotation { key: k.to_string(), value: v.to_string() })
            .collect(),
    }
}

#[test]
fn single_cold_service_is_woken() {
    let info = annotated(
        "web",
        &[("scale-to-zero/reference", "deployment/web"), ("scale-to-zero/scale-down-time", "60")],
    );
    let lookup = match service_event(&info) {
        Ok(ServiceDecision::Resolve(l)) => l,
        other => panic!("unexpected decision {:?}", other),
    };
    assert_eq!(lookup.kind, WorkloadKind::Deployment);
    assert_eq!(lookup.scale_down_time, 60);
    let mut services = Registry::new();
    let mut bindings = WorkloadBindings::new();
    let request = update_workload_status(
        "deployment".to_string(),
        lookup.name.clone(),
        Some(lookup.namespace.clone()),
        0,
        &mut bindings,
        info,
        lookup.service_ip.clone(),
        lookup.scale_down_time,
        &mut services,
        1000,
    )
    .unwrap();
    assert!(request.is_none());
    assert_eq!(services.get("10.0.0.1").unwrap().backend_available, false);

    let mut kernel = KernelMap::new();
    let ops = sync_data(&services, &mut kernel);
    assert_eq!(ops, vec![MapOp::Upsert { key: 0x0A00_0001, value: 0 }]);

    let verdict = testapp(&frame_to([10, 0, 0, 1]), &kernel);
    assert_eq!(verdict.action, XdpAction::Drop);
    let event = verdict.event.unwrap();
    assert_eq!(event, PacketLog { ipv4_address: 0x0A00_0001, action: 1 });

    let wake = process_packet(&mut services, event, 1010);
    assert_eq!(wake, Some("10.0.0.1".to_string()));
    assert_eq!(services.get("10.0.0.1").unwrap().last_packet_time, 1010);

    let mut limiter = RateLimiter::new();
    let plan = scale_up(&services, &mut limiter, "10.0.0.1", 1010 * SECOND).unwrap();
    assert_eq!(plan.len(), 1);
    assert_eq!(plan[0].ip, "10.0.0.1");

    let step = scale_service_by_ip(&services, "10.0.0.1").unwrap();
    let patch = step.patch.unwrap();
    assert_eq!(patch.kind, WorkloadKind::Deployment);
    assert_eq!(patch.namespace, "default");
    assert_eq!(patch.name, "web");
    assert_eq!(patch.replicas, 1);
    assert!(!step.recreate_autoscaler);
    store_scaled(&mut services, "10.0.0.1", step.service);
    assert!(services.get("10.0.0.1").unwrap().backend_available);

    let ops = sync_data(&services, &mut kernel);
    assert_eq!(ops, vec![MapOp::Upsert { key: 0x0A00_0001, value: 1 }]);
    let verdict = testapp(&frame_to([10, 0, 0, 1]), &kernel);
    assert_eq!(verdict.action, XdpAction::Pass);
    assert_eq!(verdict.event, Some(PacketLog { ipv4_address: 0x0A00_0001, action: 0 }));
}

#[test]
fn cascade_scale_up_child_first() {
    let mut services = Registry::new();
    let mut parent = service("parent", 10, false);
    parent.dependencies = vec!["child".to_string()];
    services.insert("10.0.0.1".to_string(), parent);
    services.insert("10.0.0.2".to_string(), service("child", 95, false));
    let mut limiter = RateLimiter::new();
    let plan = scale_up(&services, &mut limiter, "10.0.0.1", 0).unwrap();
    let order: Vec<&str> = plan.iter().map(|e| e.data.name.as_str()).collect();
    assert_eq!(order, vec!["child", "parent"]);
    for entry in &plan {
        let step = scale_service_by_ip(&services, &entry.ip).unwrap();
        assert_eq!(step.patch.as_ref().unwrap().replicas, 1);
        store_scaled(&mut services, &entry.ip, step.service);
    }
    assert!(services.get("10.0.0.1").unwrap().backend_available);
    assert!(services.get("10.0.0.2").unwrap().backend_available);
}

#[test]
fn idle_scale_down_parent_first_with_autoscaler() {
    let mut services = Registry::new();
    services.insert("10.0.0.2".to_string(), with_autoscaler(service("child", 95, true)));
    services.insert("10.0.0.1".to_string(), with_autoscaler(service("parent", 10, true)));
    let mut controller = HPASuspensionController::new();
    let sweep = scale_down(&services);
    let order: Vec<&str> = sweep.iter().map(|e| e.data.name.as_str()).collect();
    assert_eq!(order, vec!["parent", "child"]);
    for entry in sweep {
        let step = sweep_step(&entry.data, 1061);
        assert!(!step.delete_orphaned_autoscaler);
        assert!(step.scale_to_zero);
        assert!(step.delete_autoscaler_first);
        let due = controller.autoscaler_to_delete(&services, &entry.ip).unwrap();
        let found = DeleteOutcome::Found {
            spec: Some(HpaSpecInfo {
                min_replicas: Some(2),
                max_replicas: 8,
                metrics: None,
                metrics_json: None,
                behavior_json: None,
            }),
            deleted: true,
        };
        let hpa_name = due.hpa_name.clone().unwrap();
        let kept = controller.delete_hpa(&due.namespace, &hpa_name, &found);
        controller.delete_hpa_for_service(&mut services, &entry.ip, due, kept).unwrap();
        assert!(controller.is_suspended("default", &hpa_name));
        let patch = step.patch.unwrap();
        assert_eq!(patch.replicas, 0);
        store_scaled(&mut services, &entry.ip, step.service);
    }
    for ip in ["10.0.0.1", "10.0.0.2"] {
        let data = services.get(ip).unwrap();
        assert!(!data.backend_available);
        assert!(data.hpa_deleted);
        assert_eq!(data.hpa_config.unwrap().max_replicas, 8);
    }
}

#[test]
fn rate_limit() {
    let mut services = Registry::new();
    services.insert("10.0.0.1".to_string(), service("web", 50, false));
    let mut limiter = RateLimiter::new();
    assert!(scale_up(&services, &mut limiter, "10.0.0.1", 100 * SECOND).is_ok());
    let second = scale_up(&services, &mut limiter, "10.0.0.1", 103 * SECOND);
    assert_eq!(second.unwrap_err(), ScaleUpError::RateLimited);
    assert!(scale_up(&services, &mut limiter, "10.0.0.1", 106 * SECOND).is_ok());
}

#[test]
fn dependency_keeps_child_warm() {
    let mut services = Registry::new();
    let mut parent = service("parent", 10, true);
    parent.dependencies = vec!["child".to_string()];
    services.insert("10.0.0.1".to_string(), parent);
    services.insert("10.0.0.2".to_string(), service("child", 95, true));
    let packet = PacketLog { ipv4_address: 0x0A00_0001, action: 0 };
    for now in [1050, 1100, 1150] {
        assert_eq!(process_packet(&mut services, packet, now), None);
        assert_eq!(services.get("10.0.0.2").unwrap().last_packet_time, now);
        for entry in scale_down(&services) {
            let step = sweep_step(&entry.data, now + 30);
            assert!(!step.scale_to_zero);
            assert!(step.patch.is_none());
        }
    }
}

#[test]
fn malformed_reference() {
    let info = annotated(
        "web",
        &[("scale-to-zero/reference", "daemonset/foo"), ("scale-to-zero/scale-down-time", "60")],
    );
    assert_eq!(service_event(&info), Ok(ServiceDecision::Skip(SkipReason::UnknownWorkloadType)));
    let services = Registry::new();
    let mut kernel = KernelMap::new();
    assert!(sync_data(&services, &mut kernel).is_empty());
    assert_eq!(kernel.len(), 0);
}
