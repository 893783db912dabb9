use missioncenter::graph::{
    full_rescale, is_stacking, DatasetGroup, GraphDataSets, DATASET_CAPACITY, DATASET_SHOWN, round_up_fits, round_up_to_next_power_of_two, sticky_ends, Dataset, FullRescale,
    GraphAnimation, HighWatermarkRule, ScalingSettings, StickyEnds,
};

#[test]
fn default_scaling_is_fixed() {
    assert_eq!(ScalingSettings::default(), ScalingSettings::Fixed);
}

#[test]
fn rescaling_rules() {
    assert_eq!(full_rescale(ScalingSettings::ScaleUp), FullRescale { high: HighWatermarkRule::Maximum, low_to_minimum: false });
    assert_eq!(full_rescale(ScalingSettings::ScaleDown), FullRescale { high: HighWatermarkRule::Keep, low_to_minimum: true });
    assert_eq!(full_rescale(ScalingSettings::ScaleUpDown), FullRescale { high: HighWatermarkRule::Maximum, low_to_minimum: true });
    assert_eq!(full_rescale(ScalingSettings::ScaleUpPow2), FullRescale { high: HighWatermarkRule::MaximumPow2, low_to_minimum: false });
    assert_eq!(full_rescale(ScalingSettings::ScaleUpDownPow2), FullRescale { high: HighWatermarkRule::MaximumPow2, low_to_minimum: false });
    assert_eq!(full_rescale(ScalingSettings::StickyUp), FullRescale { high: HighWatermarkRule::Keep, low_to_minimum: false });
    assert_eq!(full_rescale(ScalingSettings::Fixed), FullRescale { high: HighWatermarkRule::Keep, low_to_minimum: false });
    assert_eq!(sticky_ends(ScalingSettings::StickyUp), StickyEnds { up: true, down: false });
    assert_eq!(sticky_ends(ScalingSettings::StickyDown), StickyEnds { up: false, down: true });
    assert_eq!(sticky_ends(ScalingSettings::StickyUpDown), StickyEnds { up: true, down: true });
    assert_eq!(sticky_ends(ScalingSettings::ScaleUp), StickyEnds { up: false, down: false });
    assert!(is_stacking(ScalingSettings::Stacking));
    assert!(!is_stacking(ScalingSettings::Fixed));
}

#[test]
fn powers_of_two() {
    assert_eq!(round_up_to_next_power_of_two(0), 0);
    assert_eq!(round_up_to_next_power_of_two(1), 1);
    assert_eq!(round_up_to_next_power_of_two(2), 2);
    assert_eq!(round_up_to_next_power_of_two(3), 4);
    assert_eq!(round_up_to_next_power_of_two(1000), 1024);
    assert_eq!(round_up_to_next_power_of_two(1024), 1024);
    assert_eq!(round_up_to_next_power_of_two(1025), 2048);
    assert_eq!(round_up_to_next_power_of_two(1 << 32), 1 << 32);
    for n in 1u64..5000 {
        let r = round_up_to_next_power_of_two(n);
        assert!(r.is_power_of_two() && r >= n && r < 2 * n);
    }
}

#[test]
fn power_of_two_overflow_check() {
    assert!(round_up_fits(0));
    assert!(round_up_fits(1));
    assert!(round_up_fits(1 << 40));
    assert!(!round_up_fits(u64::MAX));
    assert!(!round_up_fits((1 << 63) + (1 << 31) + 1));
    assert!(round_up_fits((1 << 63) + 2));
    assert!(round_up_fits(1 << 63));
}

#[test]
fn dataset_keeps_newest_first() {
    let mut d = Dataset::new_filled(-1i32, 4, 2);
    assert_eq!(d.len(), 4);
    assert_eq!(d.get_data(), vec![-1, -1]);
    d.push_point(5);
    d.push_point(6);
    d.push_point(7);
    assert_eq!(d.get_data(), vec![7, 6]);
    d.update_data_points(10);
    assert_eq!(d.get_data(), vec![7, 6, 5, -1]);
    assert_eq!(d.used_data, 10);
    d.push_point(8);
    d.push_point(9);
    assert_eq!(d.get_data(), vec![9, 8, 7, 6]);
    assert_eq!(d.len(), 4);
}

#[test]
fn animation_settings_report_changes() {
    let mut g = GraphAnimation::new();
    assert_eq!(g.horizontal_line_count, 6);
    assert_eq!(g.vertical_line_count, 9);
    assert!(g.set_data_points(60));
    assert!(!g.set_data_points(60));
    assert!(g.set_horizontal_line_count(4));
    assert!(!g.set_vertical_line_count(9));
    assert!(g.set_smooth_graphs(true));
    assert!(!g.set_smooth_graphs(true));
    assert!(g.set_do_animation(true));
    g.set_expected_animation_ticks(0);
    assert_eq!(g.expected_animation_ticks, 0);
    g.set_expected_animation_ticks(20);
    assert_eq!(g.expected_animation_ticks, 20);
}

#[test]
fn sliding_animation_ticks_up_to_expected() {
    let mut g = GraphAnimation::new();
    g.set_do_animation(true);
    g.set_expected_animation_ticks(3);
    assert!(!g.animation_redraws(false));
    assert!(g.update_animation(false));
    assert_eq!(g.animation_ticks, 0);
    for expected in [1, 2, 3, 3, 3] {
        assert!(g.animation_redraws(true));
        assert!(g.update_animation(true));
        assert_eq!(g.animation_ticks, expected);
    }
    g.sample_added();
    assert_eq!(g.animation_ticks, 0);
}

#[test]
fn still_animation_jumps_once() {
    let mut g = GraphAnimation::new();
    g.set_expected_animation_ticks(5);
    assert!(g.animation_redraws(true));
    assert!(g.update_animation(true));
    assert_eq!(g.animation_ticks, 5);
    assert!(!g.animation_redraws(true));
    assert!(g.update_animation(true));
    assert_eq!(g.animation_ticks, 5);
}

#[test]
fn scrolling_moves_grid_once_per_sample() {
    let mut g = GraphAnimation::new();
    g.set_do_animation(true);
    g.set_expected_animation_ticks(4);
    assert!(g.begin_frame(true));
    assert_eq!(g.scroll_offset, 1);
    g.update_animation(true);
    g.update_animation(true);
    assert!(!g.begin_frame(true));
    assert_eq!(g.scroll_offset, 1);
    assert!(g.begin_frame(false));
    g.scroll = false;
    g.try_increment_scroll();
    assert_eq!(g.scroll_offset, 1);
    g.scroll = true;
    g.scroll_offset = u32::MAX;
    g.try_increment_scroll();
    assert_eq!(g.scroll_offset, 0);
}

#[test]
fn data_points_reach_every_dataset() {
    let mut sets: GraphDataSets<i32> = GraphDataSets::new();
    assert_eq!(sets.data_points(), 0);
    let mut cpu = DatasetGroup::new(0);
    cpu.set_datasets(3, -1);
    assert_eq!(cpu.datas.len(), 3);
    assert_eq!(cpu.datas[2].used_data, DATASET_SHOWN);
    assert_eq!(cpu.datas[2].len(), DATASET_CAPACITY);
    sets.add_dataset(cpu);
    assert!(sets.groups_ref()[0].datas.iter().all(|d| d.used_data == 0));
    assert!(sets.set_data_points(60));
    sets.add_dataset(DatasetGroup::new(7));
    assert!(!sets.set_data_points(60));
    for group in sets.groups_ref() {
        for d in &group.datas {
            assert_eq!(d.used_data, 60);
            assert_eq!(d.len(), DATASET_CAPACITY);
        }
    }
    assert_eq!(sets.groups_ref()[1].datas[0].get_data().len(), 60);
    sets.set_dashed(1, true);
    sets.set_filled(0, false);
    sets.set_data_visible(5, false);
    sets.connect_datasets(0, 1);
    let groups = sets.groups_ref();
    assert!(groups[1].dashed && !groups[0].dashed);
    assert!(!groups[0].fill && groups[1].fill);
    assert_eq!(groups[0].following, Some(1));
    assert_eq!(groups[1].followed, Some(0));
}

#[test]
fn new_samples_go_to_the_datasets_at_their_positions() {
    let mut group = DatasetGroup::new(0u32);
    group.set_datasets(3, 0);
    let mut graph: GraphDataSets<u32> = GraphDataSets::new();
    graph.set_data_points(3);
    graph.add_dataset(DatasetGroup::new(0u32));
    graph.add_dataset(group);
    graph.add_data(1, &vec![7, 8]);
    graph.add_data(1, &vec![9]);
    let groups = graph.groups_ref();
    assert_eq!(groups[0].datas[0].get_data(), vec![0, 0, 0]);
    assert_eq!(groups[1].datas[0].get_data(), vec![9, 7, 0]);
    assert_eq!(groups[1].datas[1].get_data(), vec![8, 0, 0]);
    assert_eq!(groups[1].datas[2].get_data(), vec![0, 0, 0]);
    assert_eq!(groups[1].datas[0].len(), DATASET_CAPACITY);
}
