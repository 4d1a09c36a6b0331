use pyferris::checkpoint::{AutoCheckpoint, CheckpointManager};
use pyferris::cluster::{
    ClusterManager, LoadBalancer, LoadBalancingStrategy, TaskRequirements,
};
use pyferris::concurrent_map::ConcurrentHashMap;
use pyferris::dist_executor::{distributed_reduce, DistributedExecutor, TaskResult, TaskStatus};
use pyferris::dist_ops::{DistributedBatchProcessor, DistributedOps};
use pyferris::callable::{AddOp, SquareOp};
use pyferris::error::ErrorKind;
use pyferris::executor::Executor;
use pyferris::profiler::{auto_tune_workers, Profiler, WorkerSample};
use pyferris::shared::{SharedArray, SharedCounter, SharedQueue};
use pyferris::vthread::{
    create_virtual_thread_executor, execute_in_virtual_thread, virtual_thread_map, FailingTask,
    SquareTask, VirtualThreadExecutor, VirtualThreadState,
};

fn pairs(entries: &[(&str, &str)]) -> Vec<(String, String)> {
    entries.iter().map(|(k, v)| (k.to_string(), v.to_string())).collect()
}

#[test]
fn scheduler_runs_tasks_in_submission_order() {
    let mut ex: VirtualThreadExecutor<SquareTask, i64> = VirtualThreadExecutor::new(None, Some(2));
    ex.start();
    let a = ex.submit_virtual_task(SquareTask { x: 3, blocking: false }).unwrap();
    let b = ex.submit_virtual_task(SquareTask { x: 9, blocking: false }).unwrap();
    assert_eq!(a, 1);
    assert_eq!(b, 2);
    // The injector is first-in first-out: the carrier step runs the earlier
    // submission first.
    assert_eq!(ex.run_next(10), Some(1));
    assert_eq!(ex.run_next(11), Some(2));
    assert_eq!(ex.run_next(12), None);
    assert_eq!(ex.join(a, 13).unwrap(), 9);
    assert_eq!(ex.join(b, 14).unwrap(), 81);
    let (total, active, completed, workers) = ex.get_stats();
    assert_eq!(total, 2);
    assert_eq!(active, 0);
    assert_eq!(completed, 2);
    assert_eq!(workers, 2);
}

#[test]
fn join_drives_pending_work_and_reports_task_errors() {
    let mut ex: VirtualThreadExecutor<FailingTask, i64> = VirtualThreadExecutor::new(None, None);
    ex.start();
    let id = ex.submit_virtual_task(FailingTask { kind_name: String::from("ValueError") }).unwrap();
    let err = ex.join(id, 5).unwrap_err();
    assert_eq!(err.kind(), ErrorKind::TaskFailed);
    assert_eq!(err.message, "ValueError");
    assert_eq!(ex.get_thread_state(id).unwrap(), VirtualThreadState::Terminated);
}

#[test]
fn join_unknown_id_is_not_found() {
    let mut ex: VirtualThreadExecutor<SquareTask, i64> = VirtualThreadExecutor::new(None, None);
    ex.start();
    let err = ex.join(7, 0).unwrap_err();
    assert_eq!(err.kind(), ErrorKind::NotFound);
}

#[test]
fn shutdown_drops_unstarted_work_and_zeroes_active() {
    let mut ex: VirtualThreadExecutor<SquareTask, i64> = VirtualThreadExecutor::new(None, None);
    ex.start();
    let id = ex.submit_virtual_task(SquareTask { x: 2, blocking: false }).unwrap();
    ex.shutdown();
    assert!(!ex.is_running());
    assert_eq!(ex.active_thread_count(), 0);
    // The dropped submission never terminates; joining it times out.
    let err = ex.join(id, 0).unwrap_err();
    assert_eq!(err.kind(), ErrorKind::Timeout);
    // Submitting during shutdown is rejected, never silently dropped.
    let err = ex.submit_virtual_task(SquareTask { x: 5, blocking: false }).unwrap_err();
    assert_eq!(err.kind(), ErrorKind::InvalidState);
}

#[test]
fn virtual_thread_map_collects_in_submission_order() {
    let tasks: Vec<SquareTask> =
        vec![1i64, 2, 3, 4].into_iter().map(|x| SquareTask { x, blocking: false }).collect();
    let out = virtual_thread_map(tasks, Some(2), 50).unwrap();
    assert_eq!(out, vec![1, 4, 9, 16]);
}

#[test]
fn execute_in_virtual_thread_round_trips_one_task() {
    let out = execute_in_virtual_thread(SquareTask { x: 6, blocking: true }, 0).unwrap();
    assert_eq!(out, 36);
    let ex: VirtualThreadExecutor<SquareTask, i64> = create_virtual_thread_executor(Some(10), Some(1));
    assert!(!ex.is_running());
}

#[test]
fn checkpoint_save_then_restore_is_structurally_equal() {
    let mut manager = CheckpointManager::new(String::from("ckpt"), None, Some(5));
    let (id, removed) =
        manager.save_checkpoint_at(String::from("op1"), pairs(&[("i", "0")]), 250, None, 1000, 0xab);
    assert!(removed.is_empty());
    let restored = manager.restore_checkpoint(&id).unwrap();
    assert_eq!(restored.id, id);
    assert_eq!(restored.operation, "op1");
    assert_eq!(restored.state, pairs(&[("i", "0")]));
    assert_eq!(restored.progress_milli, 250);
    let err = manager.restore_checkpoint(&String::from("missing")).unwrap_err();
    assert_eq!(err.kind(), ErrorKind::NotFound);
}

#[test]
fn checkpoint_identifiers_carry_operation_millis_and_suffix() {
    let mut manager = CheckpointManager::new(String::from("ckpt"), None, Some(5));
    let (id, _) =
        manager.save_checkpoint_at(String::from("op1"), pairs(&[]), 0, None, 1234567, 0xdeadbeef);
    assert_eq!(id, "op1_1234_deadbeef");
}

#[test]
fn retention_keeps_only_newest_with_limit_one() {
    let mut manager = CheckpointManager::new(String::from("ckpt"), None, Some(1));
    let (_first, removed) =
        manager.save_checkpoint_at(String::from("op1"), pairs(&[("i", "0")]), 0, None, 0, 1);
    assert!(removed.is_empty());
    let (second, removed) =
        manager.save_checkpoint_at(String::from("op1"), pairs(&[("i", "1")]), 500, None, 500_000, 2);
    assert_eq!(removed.len(), 1);
    assert_eq!(removed[0].state, pairs(&[("i", "0")]));
    let listed = manager.list_checkpoints(None);
    assert_eq!(listed.len(), 1);
    assert_eq!(listed[0].id, second);
    assert_eq!(listed[0].state, pairs(&[("i", "1")]));
}

#[test]
fn listing_sorts_newest_first_and_filters_by_operation() {
    let mut manager = CheckpointManager::new(String::from("ckpt"), None, Some(10));
    let _ = manager.save_checkpoint_at(String::from("a"), pairs(&[]), 0, None, 1_000_000, 1);
    let _ = manager.save_checkpoint_at(String::from("b"), pairs(&[]), 0, None, 3_000_000, 2);
    let _ = manager.save_checkpoint_at(String::from("a"), pairs(&[]), 0, None, 2_000_000, 3);
    let all = manager.list_checkpoints(None);
    assert_eq!(all.len(), 3);
    assert!(all[0].timestamp_us >= all[1].timestamp_us);
    assert!(all[1].timestamp_us >= all[2].timestamp_us);
    let op_a = String::from("a");
    let only_a = manager.list_checkpoints(Some(&op_a));
    assert_eq!(only_a.len(), 2);
    assert_eq!(only_a[0].timestamp_us, 2_000_000);
    assert_eq!(only_a[1].timestamp_us, 1_000_000);
    let latest = manager.get_latest_checkpoint(&op_a).unwrap();
    assert_eq!(latest.timestamp_us, 2_000_000);
    let (total, ops) = manager.get_stats();
    assert_eq!(total, 3);
    assert_eq!(ops, 2);
}

#[test]
fn delete_checkpoint_reports_presence() {
    let mut manager = CheckpointManager::new(String::from("ckpt"), None, Some(10));
    let (id, _) = manager.save_checkpoint_at(String::from("op"), pairs(&[]), 0, None, 1, 1);
    assert!(manager.delete_checkpoint(&id));
    assert!(!manager.delete_checkpoint(&id));
}

#[test]
fn auto_checkpoint_respects_its_interval() {
    let manager = CheckpointManager::new(String::from("ckpt"), None, Some(10));
    let mut auto = AutoCheckpoint::new(String::from("op"), manager, 10);
    // Nothing saved yet: the first call is due.
    assert!(auto.maybe_checkpoint(pairs(&[]), 0, 1_000_000).is_some());
    // Two seconds later: not due with a ten-second interval.
    assert!(auto.maybe_checkpoint(pairs(&[]), 100, 3_000_000).is_none());
    // Force ignores timing.
    let _ = auto.force_checkpoint(pairs(&[]), 200, 4_000_000);
    // Twelve seconds after the forced save: due again.
    assert!(auto.maybe_checkpoint(pairs(&[]), 300, 16_000_000).is_some());
}

#[test]
fn cluster_registration_and_stats() {
    let mut cluster =
        ClusterManager::new(String::from("local"), String::from("10.0.0.1:7000"), 2048).unwrap();
    cluster.add_node(String::from("n1"), String::from("10.0.0.2:7000"), 4, 4096).unwrap();
    cluster.add_node(String::from("n2"), String::from("10.0.0.3:7000"), 8, 8192).unwrap();
    let err = cluster
        .add_node(String::from("bad"), String::from("not an address"), 1, 1)
        .unwrap_err();
    assert_eq!(err.kind(), ErrorKind::InvalidArgument);
    cluster.update_node_load(&String::from("n1"), 500).unwrap();
    let stats = cluster.get_cluster_stats();
    assert_eq!(stats.total_nodes, 2);
    assert_eq!(stats.active_nodes, 2);
    assert_eq!(stats.total_cores, 12);
    assert_eq!(stats.total_memory_mb, 12288);
    assert_eq!(stats.average_load_milli, 250);
    assert_eq!(stats.availability_milli, 1000);
    assert_eq!(cluster.get_active_nodes(), vec![String::from("n1"), String::from("n2")]);
    cluster.remove_node(&String::from("n1")).unwrap();
    assert_eq!(cluster.get_active_nodes(), vec![String::from("n2")]);
}

#[test]
fn invalid_local_address_is_rejected() {
    let err = ClusterManager::new(String::from("x"), String::from("nohost"), 1).unwrap_err();
    assert_eq!(err.kind(), ErrorKind::InvalidArgument);
    let err = ClusterManager::new(String::from("x"), String::from("host:99999"), 1).unwrap_err();
    assert_eq!(err.kind(), ErrorKind::InvalidArgument);
    assert!(ClusterManager::new(String::from("x"), String::from("host:80"), 1).is_ok());
}

#[test]
fn balancer_strategies_pick_documented_nodes() {
    let mut cluster =
        ClusterManager::new(String::from("local"), String::from("10.0.0.1:7000"), 2048).unwrap();
    cluster.add_node(String::from("n1"), String::from("10.0.0.2:7000"), 2, 1024).unwrap();
    cluster.add_node(String::from("n2"), String::from("10.0.0.3:7000"), 8, 8192).unwrap();
    cluster.add_node(String::from("n3"), String::from("10.0.0.4:7000"), 4, 2048).unwrap();
    cluster.update_node_load(&String::from("n1"), 900).unwrap();
    cluster.update_node_load(&String::from("n2"), 300).unwrap();
    cluster.update_node_load(&String::from("n3"), 100).unwrap();

    let rr = LoadBalancer::new(Some(LoadBalancingStrategy::RoundRobin));
    assert_eq!(rr.select_node(&cluster, None).unwrap(), "n1");

    let least = LoadBalancer::new(None);
    assert_eq!(least.select_node(&cluster, None).unwrap(), "n3");

    let weighted = LoadBalancer::new(Some(LoadBalancingStrategy::WeightedRoundRobin));
    // n2 offers 8 cores at load 0.3: 8/0.4 = 20 beats 4/0.2 = 20? The tie
    // keeps the earlier candidate, and n2 comes before n3.
    assert_eq!(weighted.select_node(&cluster, None).unwrap(), "n2");

    let capable = LoadBalancer::new(Some(LoadBalancingStrategy::Capability));
    let req = TaskRequirements { cpu_cores: 4, memory_mb: 2048 };
    assert_eq!(capable.select_node(&cluster, Some(req)).unwrap(), "n2");
    let req = TaskRequirements { cpu_cores: 64, memory_mb: 1 };
    assert_eq!(capable.select_node(&cluster, Some(req)).unwrap(), "n1");

    let empty =
        ClusterManager::new(String::from("local"), String::from("10.0.0.1:7000"), 2048).unwrap();
    assert!(least.select_node(&empty, None).is_none());
}

#[test]
fn distributed_executor_tracks_tasks_and_results() {
    let cluster =
        ClusterManager::new(String::from("local"), String::from("10.0.0.1:7000"), 2048).unwrap();
    let mut ex = DistributedExecutor::new(cluster, None);
    let id = ex.submit_task(String::from("work"), vec![String::from("1")], None);
    assert_eq!(ex.get_task_status(&id).unwrap(), TaskStatus::Pending);
    assert_eq!(ex.get_result(&id).unwrap(), None);
    assert!(ex.cancel_task(&id));
    assert_eq!(ex.get_task_status(&id).unwrap(), TaskStatus::Cancelled);
    assert!(!ex.cancel_task(&id));

    let id2 = ex.submit_task(String::from("work"), vec![String::from("2")], None);
    ex.record_result(TaskResult {
        task_id: id2.clone(),
        success: true,
        result: Some(String::from("4")),
        error: None,
        execution_time_us: 1000,
        node_id: String::from("local"),
    });
    assert_eq!(ex.get_task_status(&id2).unwrap(), TaskStatus::Completed);
    assert_eq!(ex.get_result(&id2).unwrap(), Some(String::from("4")));
    let successes = ex.wait_for_all();
    assert_eq!(successes, vec![(id2.clone(), String::from("4"))]);

    let id3 = ex.submit_task(String::from("work"), vec![String::from("3")], None);
    ex.record_result(TaskResult {
        task_id: id3.clone(),
        success: false,
        result: None,
        error: Some(String::from("remote fault")),
        execution_time_us: 500,
        node_id: String::from("local"),
    });
    let err = ex.get_result(&id3).unwrap_err();
    assert_eq!(err.kind(), ErrorKind::TaskFailed);
    assert_eq!(err.message, "remote fault");
    let (total, completed, failed, success_milli, avg) = ex.get_stats();
    assert_eq!(total, 3);
    assert_eq!(completed, 1);
    assert_eq!(failed, 1);
    assert_eq!(success_milli, 333);
    assert_eq!(avg, 750);

    let missing = ex.get_task_status(&String::from("nope")).unwrap_err();
    assert_eq!(missing.kind(), ErrorKind::NotFound);
}

#[test]
fn distributed_operations_mirror_the_kernel() {
    let cluster =
        ClusterManager::new(String::from("local"), String::from("10.0.0.1:7000"), 2048).unwrap();
    let mapped = DistributedOps::parallel_map(&SquareOp, vec![1i64, 2, 3], &cluster, None).unwrap();
    assert_eq!(mapped, vec![1, 4, 9]);
    let sorted = DistributedOps::parallel_sort(vec![5i64, 1, 4, 1, 3], &cluster);
    assert_eq!(sorted, vec![1, 1, 3, 4, 5]);
    let total = distributed_reduce(&AddOp, vec![1i64, 2, 3, 4], Some(10), &cluster).unwrap();
    assert_eq!(total, 20);
    let agg = DistributedOps::parallel_aggregate(&AddOp, vec![4i64, 5], None, &cluster).unwrap();
    assert_eq!(agg, 9);
    // Group by the square's value modulo grouping on equal keys.
    let groups =
        DistributedOps::parallel_group_by(&SquareOp, vec![1i64, -1, 2, -2, 3], &cluster).unwrap();
    assert_eq!(groups.len(), 3);
    assert_eq!(groups[0].0, 1);
    assert_eq!(groups[0].1, vec![1, -1]);
    assert_eq!(groups[1].0, 4);
    assert_eq!(groups[1].1, vec![2, -2]);
    assert_eq!(groups[2].0, 9);
    assert_eq!(groups[2].1, vec![3]);

    let processor = DistributedBatchProcessor::new(cluster, Some(2));
    let out = processor.process_batches(&SquareOp, vec![1i64, 2, 3, 4, 5]).unwrap();
    assert_eq!(out, vec![1, 4, 9, 16, 25]);
}

#[test]
fn pool_executor_maps_and_submits() {
    let ex = Executor::new(Some(2));
    assert_eq!(ex.get_worker_count(), 2);
    assert!(ex.is_active());
    let out = ex.map(&SquareOp, vec![1i64, 2, 3, 4]).unwrap();
    assert_eq!(out, vec![1, 4, 9, 16]);
    let one = ex.submit_with_args(&SquareOp, &7i64).unwrap();
    assert_eq!(one, 49);
    let mut op = AlwaysSeven;
    assert_eq!(ex.submit(&mut op).unwrap(), 7);
    let mut ex = ex;
    ex.shutdown();
    assert!(!ex.is_active());
}

struct AlwaysSeven;

impl pyferris::retry::UnreliableOp<i64> for AlwaysSeven {
    fn call(&mut self) -> Result<i64, pyferris::callable::TaskError> {
        Ok(7)
    }
}

#[test]
fn shared_array_respects_bounds_and_capacity() {
    let mut arr = SharedArray::new(3);
    assert!(arr.is_empty());
    arr.append(5).unwrap();
    arr.append(-2).unwrap();
    arr.extend(vec![7]).unwrap();
    let err = arr.append(9).unwrap_err();
    assert_eq!(err.kind(), ErrorKind::CapacityExceeded);
    assert_eq!(arr.len(), 3);
    assert_eq!(arr.get(1).unwrap(), -2);
    assert_eq!(arr.get(3).unwrap_err().kind(), ErrorKind::IndexOutOfBounds);
    arr.set(1, 10).unwrap();
    assert_eq!(arr.to_list(), vec![5, 10, 7]);
    assert_eq!(arr.sum(), 22);
    assert_eq!(arr.slice(1, None).unwrap(), vec![10, 7]);
    assert_eq!(arr.slice(0, Some(2)).unwrap(), vec![5, 10]);
    assert_eq!(arr.slice(2, Some(1)).unwrap_err().kind(), ErrorKind::IndexOutOfBounds);
    let squared = arr.parallel_map(&SquareOp).unwrap();
    assert_eq!(squared, vec![25, 100, 49]);
    arr.clear();
    assert_eq!(arr.len(), 0);
    let from = SharedArray::from_data(vec![1, 2]);
    assert_eq!(from.to_list(), vec![1, 2]);
}

#[test]
fn shared_queue_is_fifo_and_bounded() {
    let mut q: SharedQueue<i64> = SharedQueue::new(Some(2));
    q.put(1).unwrap();
    q.put(2).unwrap();
    let err = q.put(3).unwrap_err();
    assert_eq!(err.kind(), ErrorKind::CapacityExceeded);
    assert_eq!(q.size(), 2);
    assert_eq!(q.get().unwrap(), 1);
    assert_eq!(q.get_nowait(), Some(2));
    assert!(q.empty());
    assert_eq!(q.get().unwrap_err().kind(), ErrorKind::NotFound);
    assert_eq!(q.get_nowait(), None);
    q.put(9).unwrap();
    q.clear();
    assert!(q.empty());
}

#[test]
fn shared_counter_wraps_at_the_word_boundary() {
    let mut c = SharedCounter::new(0);
    assert_eq!(c.increment(), 1);
    assert_eq!(c.add(10), 11);
    assert_eq!(c.decrement(), 10);
    assert_eq!(c.subtract(4), 6);
    assert_eq!(c.set(100), 6);
    assert_eq!(c.compare_and_swap(100, 7), 100);
    assert_eq!(c.value(), 7);
    assert_eq!(c.compare_and_swap(100, 9), 7);
    assert_eq!(c.value(), 7);
    assert_eq!(c.reset(), 7);
    let mut edge = SharedCounter::new(u64::MAX);
    assert_eq!(edge.increment(), 0);
    let mut edge = SharedCounter::new(0);
    assert_eq!(edge.decrement(), u64::MAX);
}

#[test]
fn concurrent_map_round_trips_entries() {
    let mut m = ConcurrentHashMap::new();
    assert!(m.is_empty());
    assert_eq!(m.insert(String::from("a"), String::from("1")), None);
    assert_eq!(m.insert(String::from("a"), String::from("2")), Some(String::from("1")));
    assert_eq!(m.get(&String::from("a")), Some(String::from("2")));
    assert!(m.contains_key(&String::from("a")));
    assert_eq!(m.len(), 1);
    assert_eq!(
        m.get_or_insert(String::from("b"), String::from("7")),
        String::from("7")
    );
    assert_eq!(
        m.get_or_insert(String::from("b"), String::from("8")),
        String::from("7")
    );
    let mut keys = m.keys();
    keys.sort();
    assert_eq!(keys, vec![String::from("a"), String::from("b")]);
    assert_eq!(
        m.get_or_default(&String::from("zz"), String::from("fallback")),
        String::from("fallback")
    );
    let mut items = m.items();
    items.sort();
    assert_eq!(
        items,
        vec![
            (String::from("a"), String::from("2")),
            (String::from("b"), String::from("7"))
        ]
    );
    let mut values = m.values();
    values.sort();
    assert_eq!(values, vec![String::from("2"), String::from("7")]);
    m.update(vec![
        (String::from("a"), String::from("9")),
        (String::from("c"), String::from("3")),
    ]);
    assert_eq!(m.get(&String::from("a")), Some(String::from("9")));
    assert_eq!(m.get(&String::from("c")), Some(String::from("3")));
    assert_eq!(m.len(), 3);
    assert_eq!(m.remove(&String::from("a")), Some(String::from("9")));
    assert_eq!(m.remove(&String::from("a")), None);
    assert_eq!(m.shard_count(), 16);
    m.clear();
    assert_eq!(m.len(), 0);
}

#[test]
fn profiler_records_and_clears() {
    let mut p = Profiler::new();
    p.start(1_000);
    assert_eq!(p.stop(4_500), Some(3_500));
    assert_eq!(p.stop(5_000), None);
    p.start_timer(String::from("phase"), 10_000);
    let elapsed = p.stop_timer(String::from("phase"), 12_500).unwrap();
    assert_eq!(elapsed, 2_500);
    let err = p.stop_timer(String::from("never"), 13_000).unwrap_err();
    assert_eq!(err.kind(), ErrorKind::NotFound);
    p.record_memory(String::from("heap"), 4096);
    p.increment_counter(String::from("items"), None);
    p.increment_counter(String::from("items"), Some(9));
    let timings = p.get_timings();
    assert_eq!(timings, vec![(String::from("phase"), 2_500u64)]);
    assert_eq!(p.get_memory_usage(), vec![(String::from("heap"), 4096usize)]);
    assert_eq!(p.get_counters(), vec![(String::from("items"), 10u64)]);
    let report = p.get_report(0);
    assert_eq!(report.0.len(), 1);
    assert!(report.3.is_none());
    p.clear();
    assert!(p.get_timings().is_empty());
}

#[test]
fn auto_tuner_picks_the_highest_throughput() {
    let samples = vec![
        WorkerSample { workers: 1, processed: 100, elapsed_us: 1_000_000 },
        WorkerSample { workers: 2, processed: 180, elapsed_us: 1_000_000 },
        WorkerSample { workers: 4, processed: 170, elapsed_us: 1_000_000 },
    ];
    assert_eq!(auto_tune_workers(&samples), Some(2));
    assert_eq!(auto_tune_workers(&Vec::new()), None);
}

#[test]
fn adopting_records_rebuilds_a_directory_view() {
    // A manager as a fresh process would rebuild it from persisted records,
    // adopted in save order; retention applies during adoption.
    let mut manager = CheckpointManager::new(String::from("ckpt"), None, Some(1));
    let old_record = {
        let mut source = CheckpointManager::new(String::from("ckpt"), None, Some(2));
        let _ = source.save_checkpoint_at(String::from("op"), pairs(&[("i", "0")]), 0, None, 0, 1);
        let _ =
            source.save_checkpoint_at(String::from("op"), pairs(&[("i", "1")]), 0, None, 500_000, 2);
        source.list_checkpoints(None)
    };
    // Adopt oldest first, as a timestamp-sorted directory scan would.
    let mut removed_total = 0;
    for record in old_record.into_iter().rev() {
        removed_total += manager.adopt_record(record).len();
    }
    assert_eq!(removed_total, 1);
    let listed = manager.list_checkpoints(None);
    assert_eq!(listed.len(), 1);
    assert_eq!(listed[0].state, pairs(&[("i", "1")]));
}

#[test]
fn restoring_a_resaved_identifier_yields_the_newest_record() {
    // A later save composing the same identifier overwrites the earlier
    // save's file; restore hands back the newest record accordingly.
    let mut manager = CheckpointManager::new(String::from("ckpt"), None, Some(10));
    let (id1, _) =
        manager.save_checkpoint_at(String::from("op"), pairs(&[("v", "old")]), 0, None, 1000, 7);
    let (id2, _) =
        manager.save_checkpoint_at(String::from("op"), pairs(&[("v", "new")]), 0, None, 1000, 7);
    assert_eq!(id1, id2);
    let restored = manager.restore_checkpoint(&id1).unwrap();
    assert_eq!(restored.state, pairs(&[("v", "new")]));
}

#[test]
fn cancel_and_record_follow_the_task_lifecycle() {
    let cluster =
        ClusterManager::new(String::from("local"), String::from("10.0.0.1:7000"), 2048).unwrap();
    let mut ex = DistributedExecutor::new(cluster, None);
    let id = ex.submit_task(String::from("work"), vec![], None);
    // Recording a failure moves the task to Failed; a Failed task cannot be
    // cancelled afterwards.
    ex.record_result(TaskResult {
        task_id: id.clone(),
        success: false,
        result: None,
        error: Some(String::from("boom")),
        execution_time_us: 1,
        node_id: String::from("local"),
    });
    assert_eq!(ex.get_task_status(&id).unwrap(), TaskStatus::Failed);
    assert!(!ex.cancel_task(&id));
    assert_eq!(ex.get_task_status(&id).unwrap(), TaskStatus::Failed);
    // Cancelling an unknown identifier changes nothing.
    assert!(!ex.cancel_task(&String::from("nope")));
}
