//! Interface text in Chinese and English, side by side.

use crate::text::{chars_of, eq_chars, lower, lower_chars, lower_seq, starts_with, starts_with_lit};
use vstd::prelude::*;

verus! {

/// One full set of interface text.
#[derive(Debug, Clone, Copy, PartialEq, Eq)]
pub struct Strings {
    pub mode_overview: &'static str,
    pub mode_processes: &'static str,
    pub mode_cpu: &'static str,
    pub mode_memory: &'static str,
    pub mode_network: &'static str,
    pub mode_disk: &'static str,
    pub mode_gpu: &'static str,
    pub mode_hardware: &'static str,
    pub mode_sensors: &'static str,
    pub status_sampling: &'static str,
    pub status_paused: &'static str,
    pub status_live: &'static str,
    pub status_refreshing: &'static str,
    pub status_action_cancel: &'static str,
    pub status_action_mismatch: &'static str,
    pub status_sample_failed: &'static str,
    pub status_action_failed: &'static str,
    pub detail_load_failed: &'static str,
    pub hint_normal: &'static str,
    pub hint_sections: &'static str,
    pub hint_search: &'static str,
    pub hint_interval: &'static str,
    pub status_interval_invalid: &'static str,
    pub hint_action: &'static str,
    pub action_fallback: &'static str,
    pub confirm_kill: &'static str,
    pub confirm_terminate: &'static str,
    pub waiting_snapshot: &'static str,
    pub loading: &'static str,
    pub detail: &'static str,
    pub unavailable: &'static str,
    pub panel_system_load: &'static str,
    pub title_uptime: &'static str,
    pub load_prefix: &'static str,
    pub summary_cpu: &'static str,
    pub summary_memory: &'static str,
    pub summary_gpu: &'static str,
    pub cpu_total: &'static str,
    pub cpu_user: &'static str,
    pub cpu_system: &'static str,
    pub cpu_idle: &'static str,
    pub memory_used: &'static str,
    pub memory_available: &'static str,
    pub memory_pressure: &'static str,
    pub memory_wired: &'static str,
    pub memory_compressed: &'static str,
    pub memory_active: &'static str,
    pub memory_inactive: &'static str,
    pub memory_free: &'static str,
    pub memory_purgeable: &'static str,
    pub memory_swap: &'static str,
    pub memory_swap_value: &'static str,
    pub memory_swap_bytes: &'static str,
    pub disk_usage: &'static str,
    pub network_down: &'static str,
    pub network_up: &'static str,
    pub network_interface: &'static str,
    pub network_rx: &'static str,
    pub network_tx: &'static str,
    pub network_total_rx: &'static str,
    pub network_total_tx: &'static str,
    pub gpu_unavailable: &'static str,
    pub gpu_name: &'static str,
    pub gpu_utilization: &'static str,
    pub gpu_idle: &'static str,
    pub gpu_trend: &'static str,
    pub cpu_cluster_e: &'static str,
    pub cpu_cluster_p: &'static str,
    pub cpu_cluster_s: &'static str,
    pub cpu_per_core: &'static str,
    pub cpu_breakdown: &'static str,
    pub label_power: &'static str,
    pub label_energy: &'static str,
    pub label_temp: &'static str,
    pub label_freq: &'static str,
    pub power_summary: &'static str,
    pub cpu_power_temp: &'static str,
    pub thermal_pressure: &'static str,
    pub thermal_level_0: &'static str,
    pub thermal_level_1: &'static str,
    pub thermal_level_2: &'static str,
    pub thermal_level_3: &'static str,
    pub thermal_level_4: &'static str,
    pub sensors_fans: &'static str,
    pub sensors_unavailable: &'static str,
    pub fan_rpm: &'static str,
    pub fan_target_range: &'static str,
    pub card_power_total: &'static str,
    pub sensor_range: &'static str,
    pub sensor_group_cpu: &'static str,
    pub sensor_group_cpu_e: &'static str,
    pub sensor_group_cpu_p: &'static str,
    pub sensor_group_cpu_die: &'static str,
    pub sensor_group_gpu: &'static str,
    pub sensor_group_soc: &'static str,
    pub sensor_group_memory: &'static str,
    pub sensor_group_ssd: &'static str,
    pub sensor_group_ambient: &'static str,
    pub sensor_group_board: &'static str,
    pub sensor_group_vrm: &'static str,
    pub sensor_group_display: &'static str,
    pub sensor_group_wireless: &'static str,
    pub sensor_group_other: &'static str,
    pub disk_volume_count: &'static str,
    pub disk_io_value: &'static str,
    pub memory_bandwidth: &'static str,
    pub memory_bandwidth_value: &'static str,
    pub label_battery: &'static str,
    pub battery_charging: &'static str,
    pub battery_ac: &'static str,
    pub battery_on_battery: &'static str,
    pub label_system_power: &'static str,
    pub gpu_peak: &'static str,
    pub gpu_peak_value: &'static str,
    pub label_fps: &'static str,
    pub fps_value: &'static str,
    pub fps_permission_hint: &'static str,
    pub fps_off_hint: &'static str,
    pub section_thunderbolt: &'static str,
    pub section_rdma: &'static str,
    pub column_gpu: &'static str,
    pub field_gpu: &'static str,
    pub field_virtual: &'static str,
    pub field_cpu_time: &'static str,
    pub help_fps: &'static str,
    pub network_peak: &'static str,
    pub process_sorted_by: &'static str,
    pub process_user_filter: &'static str,
    pub process_active_only: &'static str,
    pub process_count: &'static str,
    pub column_energy: &'static str,
    pub column_power: &'static str,
    pub column_memory: &'static str,
    pub column_threads: &'static str,
    pub column_user: &'static str,
    pub column_command: &'static str,
    pub field_state: &'static str,
    pub field_started: &'static str,
    pub field_memory: &'static str,
    pub field_threads: &'static str,
    pub field_files: &'static str,
    pub field_disk_read: &'static str,
    pub field_disk_write: &'static str,
    pub field_user: &'static str,
    pub field_parent: &'static str,
    pub field_path: &'static str,
    pub field_arguments: &'static str,
    pub field_mode: &'static str,
    pub field_snapshot: &'static str,
    pub field_capabilities: &'static str,
    pub section_count: &'static str,
    pub help_title: &'static str,
    pub help_close: &'static str,
    pub help_modes: &'static str,
    pub help_enhanced: &'static str,
    pub help_move: &'static str,
    pub help_focus: &'static str,
    pub help_page: &'static str,
    pub help_ends: &'static str,
    pub help_search: &'static str,
    pub help_sort: &'static str,
    pub help_sort_energy: &'static str,
    pub help_sort_direction: &'static str,
    pub help_user_filter: &'static str,
    pub help_set_interval: &'static str,
    pub help_interval: &'static str,
    pub help_full_path: &'static str,
    pub help_hide_idle: &'static str,
    pub help_tree: &'static str,
    pub help_threads: &'static str,
    pub help_redraw: &'static str,
    pub help_refresh: &'static str,
    pub help_pause: &'static str,
    pub help_signal: &'static str,
    pub help_quit: &'static str,
    pub cli_about: &'static str,
    pub cli_long_about: &'static str,
    pub cli_about_top: &'static str,
    pub cli_about_ps: &'static str,
    pub cli_about_cpu: &'static str,
    pub cli_about_memory: &'static str,
    pub cli_about_network: &'static str,
    pub cli_about_disk: &'static str,
    pub cli_about_gpu: &'static str,
    pub cli_about_sensors: &'static str,
    pub cli_about_hardware: &'static str,
    pub cli_about_doctor: &'static str,
    pub cli_about_completion: &'static str,
    pub cli_completion_long: &'static str,
    pub cli_help_interval: &'static str,
    pub cli_help_format: &'static str,
    pub cli_help_watch: &'static str,
    pub cli_help_count: &'static str,
    pub cli_help_enhanced: &'static str,
    pub cli_help_sensitive: &'static str,
    pub cli_help_ps_pid: &'static str,
    pub cli_help_ps_user: &'static str,
    pub cli_help_ps_sort: &'static str,
    pub cli_help_ps_limit: &'static str,
    pub cli_help_top_mode: &'static str,
    pub cli_help_net_conn: &'static str,
    pub cli_help_hw_cat: &'static str,
    pub cli_help_shell: &'static str,
    pub cli_lang_help: &'static str,
    pub cli_signal_sent: &'static str,
    pub cli_hardware_categories: &'static str,
    pub cli_keyboard_note: &'static str,
}

/// The Chinese text table.
#[verifier::opaque]
pub open spec fn chinese_text() -> Strings {
    Strings {
        mode_overview: "概览",
        mode_processes: "进程",
        mode_cpu: "CPU",
        mode_memory: "内存",
        mode_network: "网络",
        mode_disk: "磁盘",
        mode_gpu: "GPU",
        mode_hardware: "硬件",
        mode_sensors: "传感器",
        status_sampling: "正在采样",
        status_paused: "已暂停",
        status_live: "LIVE",
        status_refreshing: "请求立即刷新",
        status_action_cancel: "已取消进程操作",
        status_action_mismatch: "确认文本不匹配，按 Esc 取消",
        status_sample_failed: "采样失败: {error}",
        status_action_failed: "进程操作失败: {error}",
        detail_load_failed: "详情加载失败: {error}",
        hint_normal: "↑↓ 选择  ←→ 切页  / 搜索  Space 暂停  x 结束  X 强制结束  ? 帮助  q 退出",
        hint_sections: "↑↓ 选择分区  PgUp/PgDn 滚动详情  1…9 切换模式  ? 帮助  q 退出",
        hint_search: "Enter 确认  Esc 清除",
        hint_interval: "秒（如 2）或 500ms · Enter 确认  Esc 取消",
        status_interval_invalid: "无效的间隔，示例：2 或 500ms",
        hint_action: "Enter 确认  Esc 取消",
        action_fallback: "进程操作",
        confirm_kill: "输入 PID {pid} 确认强制结束",
        confirm_terminate: "输入 y 确认结束 PID {pid}",
        waiting_snapshot: "等待首个快照…",
        loading: "读取中…",
        detail: "详情",
        unavailable: "不可用",
        panel_system_load: "系统负载",
        title_uptime: "运行 {uptime}",
        load_prefix: "负载",
        summary_cpu: "用户 {user} · 系统 {system}",
        summary_memory: "{used} / {total} · 压力 {pressure}",
        summary_gpu: "空闲 {idle}",
        cpu_total: "总计",
        cpu_user: "用户",
        cpu_system: "系统",
        cpu_idle: "空闲",
        memory_used: "已用",
        memory_available: "可用",
        memory_pressure: "压力",
        memory_wired: "Wired",
        memory_compressed: "压缩",
        memory_active: "活跃",
        memory_inactive: "非活跃",
        memory_free: "空闲",
        memory_purgeable: "可清除",
        memory_swap: "Swap",
        memory_swap_value: "换入 {in} · 换出 {out}",
        memory_swap_bytes: "{used} / {total} · 换入 {in} · 换出 {out}",
        disk_usage: "{used} 已用 / {total}",
        network_down: "↓ 下行",
        network_up: "↑ 上行",
        network_interface: "接口",
        network_rx: "下行",
        network_tx: "上行",
        network_total_rx: "累计下行",
        network_total_tx: "累计上行",
        gpu_unavailable: "GPU 不可用",
        gpu_name: "型号",
        gpu_utilization: "使用率",
        gpu_idle: "空闲",
        gpu_trend: "趋势",
        cpu_cluster_e: "E 集群",
        cpu_cluster_p: "P 集群",
        cpu_cluster_s: "S 集群",
        cpu_per_core: "每核心",
        cpu_breakdown: "用户 {user} · 系统 {system} · 空闲 {idle}",
        label_power: "功耗",
        label_energy: "能耗",
        label_temp: "温度",
        label_freq: "频率",
        power_summary: "CPU {cpu} · GPU {gpu} · ANE {ane} · 共 {total}",
        cpu_power_temp: "CPU {watts} · 温度 {temp}",
        thermal_pressure: "热压力",
        thermal_level_0: "正常",
        thermal_level_1: "偏暖",
        thermal_level_2: "严重",
        thermal_level_3: "临界",
        thermal_level_4: "休眠",
        sensors_fans: "风扇",
        sensors_unavailable: "SoC 传感器不可用（Intel 或 IOReport 初始化失败）",
        fan_rpm: "{rpm} / {max} RPM",
        fan_target_range: "目标 {target} · 范围 {min}–{max}",
        card_power_total: "共 {total}",
        sensor_range: "{avg} ({min}–{max})",
        sensor_group_cpu: "CPU",
        sensor_group_cpu_e: "CPU E 核",
        sensor_group_cpu_p: "CPU P 核",
        sensor_group_cpu_die: "CPU Die",
        sensor_group_gpu: "GPU",
        sensor_group_soc: "SoC",
        sensor_group_memory: "内存",
        sensor_group_ssd: "SSD",
        sensor_group_ambient: "环境",
        sensor_group_board: "主板",
        sensor_group_vrm: "VRM",
        sensor_group_display: "显示",
        sensor_group_wireless: "无线",
        sensor_group_other: "其他",
        disk_volume_count: "{count} 卷",
        disk_io_value: "读 {read} · 写 {write}",
        memory_bandwidth: "带宽",
        memory_bandwidth_value: "R {read} · W {write} GB/s",
        label_battery: "电池",
        battery_charging: "充电中",
        battery_ac: "外接电源",
        battery_on_battery: "电池供电",
        label_system_power: "系统",
        gpu_peak: "峰值",
        gpu_peak_value: "{ghz} GHz · {tflops} TFLOPS",
        label_fps: "FPS",
        fps_value: "{fps} FPS · {interval}ms",
        fps_permission_hint: "FPS 需要屏幕录制权限（系统设置 → 隐私与安全性）",
        fps_off_hint: "按 f 开启屏幕 FPS",
        section_thunderbolt: "雷雳",
        section_rdma: "RDMA",
        column_gpu: "GPU%",
        field_gpu: "GPU",
        field_virtual: "虚拟内存",
        field_cpu_time: "CPU 时间",
        help_fps: "屏幕 FPS 开关",
        network_peak: "峰值 ↓ {down} ↑ {up}",
        process_sorted_by: "进程 · {key} 排序",
        process_user_filter: " · 用户 {user}",
        process_active_only: " · 仅活跃",
        process_count: "{items} 项 · {threads} 线程",
        column_energy: "能耗",
        column_power: "功耗",
        column_memory: "内存",
        column_threads: "线程",
        column_user: "用户",
        column_command: "命令",
        field_state: "状态",
        field_started: "启动",
        field_memory: "内存",
        field_threads: "线程",
        field_files: "文件",
        field_disk_read: "磁盘读",
        field_disk_write: "磁盘写",
        field_user: "用户",
        field_parent: "父进程",
        field_path: "路径",
        field_arguments: "参数",
        field_mode: "模式",
        field_snapshot: "快照",
        field_capabilities: "能力",
        section_count: "{count} 项",
        help_title: "快捷键",
        help_close: "Esc / ? 关闭",
        help_modes: "切换模式",
        help_enhanced: "增强键盘协议终端",
        help_move: "移动选择",
        help_focus: "上一页 / 下一页",
        help_page: "整页滚动 / 滚动详情",
        help_ends: "跳到首尾",
        help_search: "搜索过滤",
        help_sort: "排序列 CPU/内存/PID",
        help_sort_energy: "按能耗 / 功耗排序",
        help_sort_direction: "反转升降序",
        help_user_filter: "按用户过滤",
        help_set_interval: "设置采样间隔",
        help_interval: "间隔 ±250ms",
        help_full_path: "显示完整路径",
        help_hide_idle: "隐藏空闲进程",
        help_tree: "树状视图",
        help_threads: "线程视图（选中进程）",
        help_redraw: "强制重绘",
        help_refresh: "立即刷新",
        help_pause: "暂停 / 继续",
        help_signal: "结束 / 强制结束进程",
        help_quit: "退出并恢复终端",
        cli_about: "macOS 资源与硬件只读监控工具",
        cli_long_about: "macOS 资源与硬件只读监控工具。\n\n不带子命令时进入交互式面板。每一个面板同时也是一个子命令，输出 json / jsonl / csv，契约版本固定，可直接喂给脚本。",
        cli_about_top: "打开交互式面板（不带子命令时的默认行为）",
        cli_about_ps: "列出进程的 CPU、GPU、内存、能耗影响与估算功耗",
        cli_about_cpu: "CPU 负载、每核占用，以及 Apple Silicon 的分簇频率与功耗",
        cli_about_memory: "内存占用、交换空间与内存压力",
        cli_about_network: "各网络接口吞吐，附链路类型（以太网速率 / Wi-Fi 代次）",
        cli_about_disk: "各卷容量与磁盘读写吞吐",
        cli_about_gpu: "GPU 占用、频率、功耗与每进程 GPU 时间",
        cli_about_sensors: "温度、风扇、热压力与电池",
        cli_about_hardware: "来自 system_profiler 的静态硬件清单",
        cli_about_doctor: "逐项检查本机哪些数据源可读，不可读的说明原因",
        cli_about_completion: "把 bmtop 的 shell 补全脚本打印到标准输出",
        cli_completion_long: "把 bmtop 的 shell 补全脚本打印到标准输出。\n\n它只负责输出脚本，不安装任何东西、不改任何文件。把输出重定向到你的 shell 启动时会读取的目录，然后开一个新 shell：\n\n  bash  bmtop completion bash > $(brew --prefix)/etc/bash_completion.d/bmtop\n  zsh   bmtop completion zsh  > $(brew --prefix)/share/zsh/site-functions/_bmtop\n  fish  bmtop completion fish > ~/.config/fish/completions/bmtop.fish\n\n没装 Homebrew 的话，bash 的 $BASH_COMPLETION_COMPAT_DIR 或 zsh 的 $fpath 里任意一个目录都行，`echo $fpath` 可以看到候选。\n\n装好之后按 <Tab> 能补全子命令、参数以及参数的取值——比如 `bmtop ps --sort <Tab>` 会列出 cpu / memory / pid / energy / power。",
        cli_help_interval: "采样间隔，例如 `2s`、`500ms`",
        cli_help_format: "一次性子命令的输出格式",
        cli_help_watch: "持续采样直到被中断，而不是只打印一次",
        cli_help_count: "采样 N 次后退出（隐含 --watch 的循环语义），供脚本使用",
        cli_help_enhanced: "合并一次 sudo powermetrics 采样（只有 gpu 和 sensors 接受）",
        cli_help_sensitive: "不脱敏硬件标识（序列号、UUID）",
        cli_help_ps_pid: "只看这一个 PID",
        cli_help_ps_user: "只看该用户拥有的进程",
        cli_help_ps_sort: "排序列：cpu | memory | pid | energy | power",
        cli_help_ps_limit: "排序后只保留前 N 行",
        cli_help_top_mode: "直接打开某一页：1 概览、2 进程 …… 9 传感器",
        cli_help_net_conn: "同时列出活动的网络连接",
        cli_help_hw_cat: "只看某一类，例如 `SPDisplaysDataType`；省略则全部列出",
        cli_help_shell: "为哪个 shell 生成脚本",
        cli_lang_help: "界面语言（zh 或 en），默认跟随 LC_ALL / LC_MESSAGES / LANG",
        cli_signal_sent: "已发送 {signal} 到 PID {pid}",
        cli_hardware_categories: "硬件分类",
        cli_keyboard_note: "Command+1…9 仅在终端报告增强键盘协议时可用",
    }
}

/// The English text table.
#[verifier::opaque]
pub open spec fn english_text() -> Strings {
    Strings {
        mode_overview: "Overview",
        mode_processes: "Processes",
        mode_cpu: "CPU",
        mode_memory: "Memory",
        mode_network: "Network",
        mode_disk: "Disk",
        mode_gpu: "GPU",
        mode_hardware: "Hardware",
        mode_sensors: "Sensors",
        status_sampling: "Sampling",
        status_paused: "PAUSED",
        status_live: "LIVE",
        status_refreshing: "Refresh requested",
        status_action_cancel: "Process action cancelled",
        status_action_mismatch: "Confirmation does not match, press Esc to cancel",
        status_sample_failed: "Sampling failed: {error}",
        status_action_failed: "Process action failed: {error}",
        detail_load_failed: "Detail load failed: {error}",
        hint_normal: "↑↓ select  ←→ switch page  / search  Space pause  x term  X kill  ? help  q quit",
        hint_sections: "↑↓ select section  PgUp/PgDn scroll detail  1…9 switch mode  ? help  q quit",
        hint_search: "Enter confirm  Esc clear",
        hint_interval: "seconds (e.g. 2) or 500ms · Enter confirm  Esc cancel",
        status_interval_invalid: "Invalid interval, e.g. 2 or 500ms",
        hint_action: "Enter confirm  Esc cancel",
        action_fallback: "Process action",
        confirm_kill: "Type PID {pid} to confirm force kill",
        confirm_terminate: "Type y to confirm terminating PID {pid}",
        waiting_snapshot: "Waiting for first snapshot…",
        loading: "Loading…",
        detail: "Details",
        unavailable: "unavailable",
        panel_system_load: "System Load",
        title_uptime: "up {uptime}",
        load_prefix: "Load",
        summary_cpu: "user {user} · sys {system}",
        summary_memory: "{used} / {total} · pressure {pressure}",
        summary_gpu: "idle {idle}",
        cpu_total: "Total",
        cpu_user: "User",
        cpu_system: "System",
        cpu_idle: "Idle",
        memory_used: "Used",
        memory_available: "Available",
        memory_pressure: "Pressure",
        memory_wired: "Wired",
        memory_compressed: "Compressed",
        memory_active: "Active",
        memory_inactive: "Inactive",
        memory_free: "Free",
        memory_purgeable: "Purgeable",
        memory_swap: "Swap",
        memory_swap_value: "in {in} · out {out}",
        memory_swap_bytes: "{used} / {total} · in {in} · out {out}",
        disk_usage: "{used} used / {total}",
        network_down: "↓ Down",
        network_up: "↑ Up",
        network_interface: "Interface",
        network_rx: "Down",
        network_tx: "Up",
        network_total_rx: "Total Rx",
        network_total_tx: "Total Tx",
        gpu_unavailable: "GPU unavailable",
        gpu_name: "Model",
        gpu_utilization: "Usage",
        gpu_idle: "Idle",
        gpu_trend: "Trend",
        cpu_cluster_e: "E-Cluster",
        cpu_cluster_p: "P-Cluster",
        cpu_cluster_s: "S-Cluster",
        cpu_per_core: "Per core",
        cpu_breakdown: "user {user} · sys {system} · idle {idle}",
        label_power: "Power",
        label_energy: "Energy",
        label_temp: "Temp",
        label_freq: "Freq",
        power_summary: "CPU {cpu} · GPU {gpu} · ANE {ane} · total {total}",
        cpu_power_temp: "CPU {watts} · temp {temp}",
        thermal_pressure: "Thermal pressure",
        thermal_level_0: "Nominal",
        thermal_level_1: "Fair",
        thermal_level_2: "Serious",
        thermal_level_3: "Critical",
        thermal_level_4: "Sleeping",
        sensors_fans: "Fans",
        sensors_unavailable: "SoC sensors unavailable (Intel or IOReport init failed)",
        fan_rpm: "{rpm} / {max} RPM",
        fan_target_range: "target {target} · range {min}–{max}",
        card_power_total: "total {total}",
        sensor_range: "{avg} ({min}–{max})",
        sensor_group_cpu: "CPU",
        sensor_group_cpu_e: "CPU E-Core",
        sensor_group_cpu_p: "CPU P-Core",
        sensor_group_cpu_die: "CPU Die",
        sensor_group_gpu: "GPU",
        sensor_group_soc: "SoC",
        sensor_group_memory: "Memory",
        sensor_group_ssd: "SSD",
        sensor_group_ambient: "Ambient",
        sensor_group_board: "Board",
        sensor_group_vrm: "VRM",
        sensor_group_display: "Display",
        sensor_group_wireless: "Wireless",
        sensor_group_other: "Other",
        disk_volume_count: "{count} volumes",
        disk_io_value: "R {read} · W {write}",
        memory_bandwidth: "BW",
        memory_bandwidth_value: "R {read} · W {write} GB/s",
        label_battery: "Battery",
        battery_charging: "charging",
        battery_ac: "AC power",
        battery_on_battery: "on battery",
        label_system_power: "System",
        gpu_peak: "Peak",
        gpu_peak_value: "{ghz} GHz · {tflops} TFLOPS",
        label_fps: "FPS",
        fps_value: "{fps} FPS · {interval}ms",
        fps_permission_hint: "FPS needs Screen Recording permission (System Settings → Privacy)",
        fps_off_hint: "press f to enable display FPS",
        section_thunderbolt: "Thunderbolt",
        section_rdma: "RDMA",
        column_gpu: "GPU%",
        field_gpu: "GPU",
        field_virtual: "Virt",
        field_cpu_time: "CPU time",
        help_fps: "Toggle display FPS",
        network_peak: "peak ↓ {down} ↑ {up}",
        process_sorted_by: "Processes · by {key}",
        process_user_filter: " · user {user}",
        process_active_only: " · active only",
        process_count: "{items} procs · {threads} threads",
        column_energy: "NRG",
        column_power: "PWR",
        column_memory: "MEM",
        column_threads: "THR",
        column_user: "USER",
        column_command: "COMMAND",
        field_state: "State",
        field_started: "Started",
        field_memory: "Memory",
        field_threads: "Threads",
        field_files: "Files",
        field_disk_read: "Disk R",
        field_disk_write: "Disk W",
        field_user: "User",
        field_parent: "Parent",
        field_path: "Path",
        field_arguments: "Args",
        field_mode: "Mode",
        field_snapshot: "Snapshot",
        field_capabilities: "Capabilities",
        section_count: "{count} items",
        help_title: "Shortcuts",
        help_close: "Esc / ? to close",
        help_modes: "Switch mode",
        help_enhanced: "Enhanced keyboard protocol",
        help_move: "Move selection",
        help_focus: "Previous / next page",
        help_page: "Page scroll / scroll detail",
        help_ends: "Jump to first / last",
        help_search: "Search filter",
        help_sort: "Sort column CPU/MEM/PID",
        help_sort_energy: "Sort by energy / power",
        help_sort_direction: "Reverse sort order",
        help_user_filter: "Filter by user",
        help_set_interval: "Set sampling interval",
        help_interval: "Interval ±250ms",
        help_full_path: "Show full path",
        help_hide_idle: "Hide idle processes",
        help_tree: "Tree view",
        help_threads: "Thread view (selected)",
        help_redraw: "Force redraw",
        help_refresh: "Refresh now",
        help_pause: "Pause / resume",
        help_signal: "Terminate / force kill",
        help_quit: "Quit and restore terminal",
        cli_about: "Read-only macOS resource and hardware monitor",
        cli_long_about: "Read-only macOS resource and hardware monitor.\n\nRun without a subcommand for the interactive dashboard. Every panel is also a subcommand with stable json / jsonl / csv output, so the same data is usable from scripts.",
        cli_about_top: "Launch the interactive dashboard (the default when no subcommand is given)",
        cli_about_ps: "List processes with CPU, GPU, memory, energy impact and estimated power",
        cli_about_cpu: "CPU load, per-core usage and (Apple Silicon) per-cluster frequency and power",
        cli_about_memory: "Memory usage, swap and memory pressure",
        cli_about_network: "Per-interface throughput plus link type (Ethernet speed / Wi-Fi generation)",
        cli_about_disk: "Volume capacity and disk I/O throughput",
        cli_about_gpu: "GPU utilisation, frequency, power and per-process GPU time",
        cli_about_sensors: "Temperatures, fans, thermal pressure and battery",
        cli_about_hardware: "Static hardware inventory from system_profiler",
        cli_about_doctor: "Check which data sources are readable on this machine, and why any are not",
        cli_about_completion: "Print a shell completion script for bmtop to stdout",
        cli_completion_long: "Print a shell completion script for bmtop to stdout.\n\nIt only writes the script to stdout — nothing is installed and no file is touched. Redirect it into the directory your shell loads at startup, then open a new shell:\n\n  bash  bmtop completion bash > $(brew --prefix)/etc/bash_completion.d/bmtop\n  zsh   bmtop completion zsh  > $(brew --prefix)/share/zsh/site-functions/_bmtop\n  fish  bmtop completion fish > ~/.config/fish/completions/bmtop.fish\n\nWithout Homebrew, any directory on bash's $BASH_COMPLETION_COMPAT_DIR or zsh's $fpath works; `echo $fpath` shows the candidates.\n\nOnce loaded, <Tab> completes subcommands, flags and flag values — for instance `bmtop ps --sort <Tab>` offers cpu / memory / pid / energy / power.",
        cli_help_interval: "Sampling interval, e.g. `2s`, `500ms`",
        cli_help_format: "Output format for one-shot subcommands",
        cli_help_watch: "Keep sampling until interrupted instead of printing once",
        cli_help_count: "Sample N times then exit (implies the --watch loop); for scripting",
        cli_help_enhanced: "Merge one sudo `powermetrics` sample in (only `gpu` and `sensors` accept it)",
        cli_help_sensitive: "Do not redact hardware identifiers (serial numbers, UUIDs)",
        cli_help_ps_pid: "Only this PID",
        cli_help_ps_user: "Only processes owned by this user",
        cli_help_ps_sort: "Sort column: cpu | memory | pid | energy | power",
        cli_help_ps_limit: "Keep only the first N rows (truncated after sorting)",
        cli_help_top_mode: "Open on a specific page: 1 overview, 2 processes, … 9 sensors",
        cli_help_net_conn: "Also list active network connections",
        cli_help_hw_cat: "Limit to one category, e.g. `SPDisplaysDataType`; omit to list all",
        cli_help_shell: "Which shell to emit the script for",
        cli_lang_help: "Interface language (zh or en); defaults to LC_ALL / LC_MESSAGES / LANG",
        cli_signal_sent: "Sent {signal} to PID {pid}",
        cli_hardware_categories: "Hardware categories",
        cli_keyboard_note: "Command+1…9 works only when the terminal reports an enhanced keyboard protocol",
    }
}

fn chinese_strings() -> (s: Strings)
    ensures
        s == chinese_text(),
{
    reveal(chinese_text);
    Strings {
        mode_overview: "概览",
        mode_processes: "进程",
        mode_cpu: "CPU",
        mode_memory: "内存",
        mode_network: "网络",
        mode_disk: "磁盘",
        mode_gpu: "GPU",
        mode_hardware: "硬件",
        mode_sensors: "传感器",
        status_sampling: "正在采样",
        status_paused: "已暂停",
        status_live: "LIVE",
        status_refreshing: "请求立即刷新",
        status_action_cancel: "已取消进程操作",
        status_action_mismatch: "确认文本不匹配，按 Esc 取消",
        status_sample_failed: "采样失败: {error}",
        status_action_failed: "进程操作失败: {error}",
        detail_load_failed: "详情加载失败: {error}",
        hint_normal: "↑↓ 选择  ←→ 切页  / 搜索  Space 暂停  x 结束  X 强制结束  ? 帮助  q 退出",
        hint_sections: "↑↓ 选择分区  PgUp/PgDn 滚动详情  1…9 切换模式  ? 帮助  q 退出",
        hint_search: "Enter 确认  Esc 清除",
        hint_interval: "秒（如 2）或 500ms · Enter 确认  Esc 取消",
        status_interval_invalid: "无效的间隔，示例：2 或 500ms",
        hint_action: "Enter 确认  Esc 取消",
        action_fallback: "进程操作",
        confirm_kill: "输入 PID {pid} 确认强制结束",
        confirm_terminate: "输入 y 确认结束 PID {pid}",
        waiting_snapshot: "等待首个快照…",
        loading: "读取中…",
        detail: "详情",
        unavailable: "不可用",
        panel_system_load: "系统负载",
        title_uptime: "运行 {uptime}",
        load_prefix: "负载",
        summary_cpu: "用户 {user} · 系统 {system}",
        summary_memory: "{used} / {total} · 压力 {pressure}",
        summary_gpu: "空闲 {idle}",
        cpu_total: "总计",
        cpu_user: "用户",
        cpu_system: "系统",
        cpu_idle: "空闲",
        memory_used: "已用",
        memory_available: "可用",
        memory_pressure: "压力",
        memory_wired: "Wired",
        memory_compressed: "压缩",
        memory_active: "活跃",
        memory_inactive: "非活跃",
        memory_free: "空闲",
        memory_purgeable: "可清除",
        memory_swap: "Swap",
        memory_swap_value: "换入 {in} · 换出 {out}",
        memory_swap_bytes: "{used} / {total} · 换入 {in} · 换出 {out}",
        disk_usage: "{used} 已用 / {total}",
        network_down: "↓ 下行",
        network_up: "↑ 上行",
        network_interface: "接口",
        network_rx: "下行",
        network_tx: "上行",
        network_total_rx: "累计下行",
        network_total_tx: "累计上行",
        gpu_unavailable: "GPU 不可用",
        gpu_name: "型号",
        gpu_utilization: "使用率",
        gpu_idle: "空闲",
        gpu_trend: "趋势",
        cpu_cluster_e: "E 集群",
        cpu_cluster_p: "P 集群",
        cpu_cluster_s: "S 集群",
        cpu_per_core: "每核心",
        cpu_breakdown: "用户 {user} · 系统 {system} · 空闲 {idle}",
        label_power: "功耗",
        label_energy: "能耗",
        label_temp: "温度",
        label_freq: "频率",
        power_summary: "CPU {cpu} · GPU {gpu} · ANE {ane} · 共 {total}",
        cpu_power_temp: "CPU {watts} · 温度 {temp}",
        thermal_pressure: "热压力",
        thermal_level_0: "正常",
        thermal_level_1: "偏暖",
        thermal_level_2: "严重",
        thermal_level_3: "临界",
        thermal_level_4: "休眠",
        sensors_fans: "风扇",
        sensors_unavailable: "SoC 传感器不可用（Intel 或 IOReport 初始化失败）",
        fan_rpm: "{rpm} / {max} RPM",
        fan_target_range: "目标 {target} · 范围 {min}–{max}",
        card_power_total: "共 {total}",
        sensor_range: "{avg} ({min}–{max})",
        sensor_group_cpu: "CPU",
        sensor_group_cpu_e: "CPU E 核",
        sensor_group_cpu_p: "CPU P 核",
        sensor_group_cpu_die: "CPU Die",
        sensor_group_gpu: "GPU",
        sensor_group_soc: "SoC",
        sensor_group_memory: "内存",
        sensor_group_ssd: "SSD",
        sensor_group_ambient: "环境",
        sensor_group_board: "主板",
        sensor_group_vrm: "VRM",
        sensor_group_display: "显示",
        sensor_group_wireless: "无线",
        sensor_group_other: "其他",
        disk_volume_count: "{count} 卷",
        disk_io_value: "读 {read} · 写 {write}",
        memory_bandwidth: "带宽",
        memory_bandwidth_value: "R {read} · W {write} GB/s",
        label_battery: "电池",
        battery_charging: "充电中",
        battery_ac: "外接电源",
        battery_on_battery: "电池供电",
        label_system_power: "系统",
        gpu_peak: "峰值",
        gpu_peak_value: "{ghz} GHz · {tflops} TFLOPS",
        label_fps: "FPS",
        fps_value: "{fps} FPS · {interval}ms",
        fps_permission_hint: "FPS 需要屏幕录制权限（系统设置 → 隐私与安全性）",
        fps_off_hint: "按 f 开启屏幕 FPS",
        section_thunderbolt: "雷雳",
        section_rdma: "RDMA",
        column_gpu: "GPU%",
        field_gpu: "GPU",
        field_virtual: "虚拟内存",
        field_cpu_time: "CPU 时间",
        help_fps: "屏幕 FPS 开关",
        network_peak: "峰值 ↓ {down} ↑ {up}",
        process_sorted_by: "进程 · {key} 排序",
        process_user_filter: " · 用户 {user}",
        process_active_only: " · 仅活跃",
        process_count: "{items} 项 · {threads} 线程",
        column_energy: "能耗",
        column_power: "功耗",
        column_memory: "内存",
        column_threads: "线程",
        column_user: "用户",
        column_command: "命令",
        field_state: "状态",
        field_started: "启动",
        field_memory: "内存",
        field_threads: "线程",
        field_files: "文件",
        field_disk_read: "磁盘读",
        field_disk_write: "磁盘写",
        field_user: "用户",
        field_parent: "父进程",
        field_path: "路径",
        field_arguments: "参数",
        field_mode: "模式",
        field_snapshot: "快照",
        field_capabilities: "能力",
        section_count: "{count} 项",
        help_title: "快捷键",
        help_close: "Esc / ? 关闭",
        help_modes: "切换模式",
        help_enhanced: "增强键盘协议终端",
        help_move: "移动选择",
        help_focus: "上一页 / 下一页",
        help_page: "整页滚动 / 滚动详情",
        help_ends: "跳到首尾",
        help_search: "搜索过滤",
        help_sort: "排序列 CPU/内存/PID",
        help_sort_energy: "按能耗 / 功耗排序",
        help_sort_direction: "反转升降序",
        help_user_filter: "按用户过滤",
        help_set_interval: "设置采样间隔",
        help_interval: "间隔 ±250ms",
        help_full_path: "显示完整路径",
        help_hide_idle: "隐藏空闲进程",
        help_tree: "树状视图",
        help_threads: "线程视图（选中进程）",
        help_redraw: "强制重绘",
        help_refresh: "立即刷新",
        help_pause: "暂停 / 继续",
        help_signal: "结束 / 强制结束进程",
        help_quit: "退出并恢复终端",
        cli_about: "macOS 资源与硬件只读监控工具",
        cli_long_about: "macOS 资源与硬件只读监控工具。\n\n不带子命令时进入交互式面板。每一个面板同时也是一个子命令，输出 json / jsonl / csv，契约版本固定，可直接喂给脚本。",
        cli_about_top: "打开交互式面板（不带子命令时的默认行为）",
        cli_about_ps: "列出进程的 CPU、GPU、内存、能耗影响与估算功耗",
        cli_about_cpu: "CPU 负载、每核占用，以及 Apple Silicon 的分簇频率与功耗",
        cli_about_memory: "内存占用、交换空间与内存压力",
        cli_about_network: "各网络接口吞吐，附链路类型（以太网速率 / Wi-Fi 代次）",
        cli_about_disk: "各卷容量与磁盘读写吞吐",
        cli_about_gpu: "GPU 占用、频率、功耗与每进程 GPU 时间",
        cli_about_sensors: "温度、风扇、热压力与电池",
        cli_about_hardware: "来自 system_profiler 的静态硬件清单",
        cli_about_doctor: "逐项检查本机哪些数据源可读，不可读的说明原因",
        cli_about_completion: "把 bmtop 的 shell 补全脚本打印到标准输出",
        cli_completion_long: "把 bmtop 的 shell 补全脚本打印到标准输出。\n\n它只负责输出脚本，不安装任何东西、不改任何文件。把输出重定向到你的 shell 启动时会读取的目录，然后开一个新 shell：\n\n  bash  bmtop completion bash > $(brew --prefix)/etc/bash_completion.d/bmtop\n  zsh   bmtop completion zsh  > $(brew --prefix)/share/zsh/site-functions/_bmtop\n  fish  bmtop completion fish > ~/.config/fish/completions/bmtop.fish\n\n没装 Homebrew 的话，bash 的 $BASH_COMPLETION_COMPAT_DIR 或 zsh 的 $fpath 里任意一个目录都行，`echo $fpath` 可以看到候选。\n\n装好之后按 <Tab> 能补全子命令、参数以及参数的取值——比如 `bmtop ps --sort <Tab>` 会列出 cpu / memory / pid / energy / power。",
        cli_help_interval: "采样间隔，例如 `2s`、`500ms`",
        cli_help_format: "一次性子命令的输出格式",
        cli_help_watch: "持续采样直到被中断，而不是只打印一次",
        cli_help_count: "采样 N 次后退出（隐含 --watch 的循环语义），供脚本使用",
        cli_help_enhanced: "合并一次 sudo powermetrics 采样（只有 gpu 和 sensors 接受）",
        cli_help_sensitive: "不脱敏硬件标识（序列号、UUID）",
        cli_help_ps_pid: "只看这一个 PID",
        cli_help_ps_user: "只看该用户拥有的进程",
        cli_help_ps_sort: "排序列：cpu | memory | pid | energy | power",
        cli_help_ps_limit: "排序后只保留前 N 行",
        cli_help_top_mode: "直接打开某一页：1 概览、2 进程 …… 9 传感器",
        cli_help_net_conn: "同时列出活动的网络连接",
        cli_help_hw_cat: "只看某一类，例如 `SPDisplaysDataType`；省略则全部列出",
        cli_help_shell: "为哪个 shell 生成脚本",
        cli_lang_help: "界面语言（zh 或 en），默认跟随 LC_ALL / LC_MESSAGES / LANG",
        cli_signal_sent: "已发送 {signal} 到 PID {pid}",
        cli_hardware_categories: "硬件分类",
        cli_keyboard_note: "Command+1…9 仅在终端报告增强键盘协议时可用",
    }
}

fn english_strings() -> (s: Strings)
    ensures
        s == english_text(),
{
    reveal(english_text);
    Strings {
        mode_overview: "Overview",
        mode_processes: "Processes",
        mode_cpu: "CPU",
        mode_memory: "Memory",
        mode_network: "Network",
        mode_disk: "Disk",
        mode_gpu: "GPU",
        mode_hardware: "Hardware",
        mode_sensors: "Sensors",
        status_sampling: "Sampling",
        status_paused: "PAUSED",
        status_live: "LIVE",
        status_refreshing: "Refresh requested",
        status_action_cancel: "Process action cancelled",
        status_action_mismatch: "Confirmation does not match, press Esc to cancel",
        status_sample_failed: "Sampling failed: {error}",
        status_action_failed: "Process action failed: {error}",
        detail_load_failed: "Detail load failed: {error}",
        hint_normal: "↑↓ select  ←→ switch page  / search  Space pause  x term  X kill  ? help  q quit",
        hint_sections: "↑↓ select section  PgUp/PgDn scroll detail  1…9 switch mode  ? help  q quit",
        hint_search: "Enter confirm  Esc clear",
        hint_interval: "seconds (e.g. 2) or 500ms · Enter confirm  Esc cancel",
        status_interval_invalid: "Invalid interval, e.g. 2 or 500ms",
        hint_action: "Enter confirm  Esc cancel",
        action_fallback: "Process action",
        confirm_kill: "Type PID {pid} to confirm force kill",
        confirm_terminate: "Type y to confirm terminating PID {pid}",
        waiting_snapshot: "Waiting for first snapshot…",
        loading: "Loading…",
        detail: "Details",
        unavailable: "unavailable",
        panel_system_load: "System Load",
        title_uptime: "up {uptime}",
        load_prefix: "Load",
        summary_cpu: "user {user} · sys {system}",
        summary_memory: "{used} / {total} · pressure {pressure}",
        summary_gpu: "idle {idle}",
        cpu_total: "Total",
        cpu_user: "User",
        cpu_system: "System",
        cpu_idle: "Idle",
        memory_used: "Used",
        memory_available: "Available",
        memory_pressure: "Pressure",
        memory_wired: "Wired",
        memory_compressed: "Compressed",
        memory_active: "Active",
        memory_inactive: "Inactive",
        memory_free: "Free",
        memory_purgeable: "Purgeable",
        memory_swap: "Swap",
        memory_swap_value: "in {in} · out {out}",
        memory_swap_bytes: "{used} / {total} · in {in} · out {out}",
        disk_usage: "{used} used / {total}",
        network_down: "↓ Down",
        network_up: "↑ Up",
        network_interface: "Interface",
        network_rx: "Down",
        network_tx: "Up",
        network_total_rx: "Total Rx",
        network_total_tx: "Total Tx",
        gpu_unavailable: "GPU unavailable",
        gpu_name: "Model",
        gpu_utilization: "Usage",
        gpu_idle: "Idle",
        gpu_trend: "Trend",
        cpu_cluster_e: "E-Cluster",
        cpu_cluster_p: "P-Cluster",
        cpu_cluster_s: "S-Cluster",
        cpu_per_core: "Per core",
        cpu_breakdown: "user {user} · sys {system} · idle {idle}",
        label_power: "Power",
        label_energy: "Energy",
        label_temp: "Temp",
        label_freq: "Freq",
        power_summary: "CPU {cpu} · GPU {gpu} · ANE {ane} · total {total}",
        cpu_power_temp: "CPU {watts} · temp {temp}",
        thermal_pressure: "Thermal pressure",
        thermal_level_0: "Nominal",
        thermal_level_1: "Fair",
        thermal_level_2: "Serious",
        thermal_level_3: "Critical",
        thermal_level_4: "Sleeping",
        sensors_fans: "Fans",
        sensors_unavailable: "SoC sensors unavailable (Intel or IOReport init failed)",
        fan_rpm: "{rpm} / {max} RPM",
        fan_target_range: "target {target} · range {min}–{max}",
        card_power_total: "total {total}",
        sensor_range: "{avg} ({min}–{max})",
        sensor_group_cpu: "CPU",
        sensor_group_cpu_e: "CPU E-Core",
        sensor_group_cpu_p: "CPU P-Core",
        sensor_group_cpu_die: "CPU Die",
        sensor_group_gpu: "GPU",
        sensor_group_soc: "SoC",
        sensor_group_memory: "Memory",
        sensor_group_ssd: "SSD",
        sensor_group_ambient: "Ambient",
        sensor_group_board: "Board",
        sensor_group_vrm: "VRM",
        sensor_group_display: "Display",
        sensor_group_wireless: "Wireless",
        sensor_group_other: "Other",
        disk_volume_count: "{count} volumes",
        disk_io_value: "R {read} · W {write}",
        memory_bandwidth: "BW",
        memory_bandwidth_value: "R {read} · W {write} GB/s",
        label_battery: "Battery",
        battery_charging: "charging",
        battery_ac: "AC power",
        battery_on_battery: "on battery",
        label_system_power: "System",
        gpu_peak: "Peak",
        gpu_peak_value: "{ghz} GHz · {tflops} TFLOPS",
        label_fps: "FPS",
        fps_value: "{fps} FPS · {interval}ms",
        fps_permission_hint: "FPS needs Screen Recording permission (System Settings → Privacy)",
        fps_off_hint: "press f to enable display FPS",
        section_thunderbolt: "Thunderbolt",
        section_rdma: "RDMA",
        column_gpu: "GPU%",
        field_gpu: "GPU",
        field_virtual: "Virt",
        field_cpu_time: "CPU time",
        help_fps: "Toggle display FPS",
        network_peak: "peak ↓ {down} ↑ {up}",
        process_sorted_by: "Processes · by {key}",
        process_user_filter: " · user {user}",
        process_active_only: " · active only",
        process_count: "{items} procs · {threads} threads",
        column_energy: "NRG",
        column_power: "PWR",
        column_memory: "MEM",
        column_threads: "THR",
        column_user: "USER",
        column_command: "COMMAND",
        field_state: "State",
        field_started: "Started",
        field_memory: "Memory",
        field_threads: "Threads",
        field_files: "Files",
        field_disk_read: "Disk R",
        field_disk_write: "Disk W",
        field_user: "User",
        field_parent: "Parent",
        field_path: "Path",
        field_arguments: "Args",
        field_mode: "Mode",
        field_snapshot: "Snapshot",
        field_capabilities: "Capabilities",
        section_count: "{count} items",
        help_title: "Shortcuts",
        help_close: "Esc / ? to close",
        help_modes: "Switch mode",
        help_enhanced: "Enhanced keyboard protocol",
        help_move: "Move selection",
        help_focus: "Previous / next page",
        help_page: "Page scroll / scroll detail",
        help_ends: "Jump to first / last",
        help_search: "Search filter",
        help_sort: "Sort column CPU/MEM/PID",
        help_sort_energy: "Sort by energy / power",
        help_sort_direction: "Reverse sort order",
        help_user_filter: "Filter by user",
        help_set_interval: "Set sampling interval",
        help_interval: "Interval ±250ms",
        help_full_path: "Show full path",
        help_hide_idle: "Hide idle processes",
        help_tree: "Tree view",
        help_threads: "Thread view (selected)",
        help_redraw: "Force redraw",
        help_refresh: "Refresh now",
        help_pause: "Pause / resume",
        help_signal: "Terminate / force kill",
        help_quit: "Quit and restore terminal",
        cli_about: "Read-only macOS resource and hardware monitor",
        cli_long_about: "Read-only macOS resource and hardware monitor.\n\nRun without a subcommand for the interactive dashboard. Every panel is also a subcommand with stable json / jsonl / csv output, so the same data is usable from scripts.",
        cli_about_top: "Launch the interactive dashboard (the default when no subcommand is given)",
        cli_about_ps: "List processes with CPU, GPU, memory, energy impact and estimated power",
        cli_about_cpu: "CPU load, per-core usage and (Apple Silicon) per-cluster frequency and power",
        cli_about_memory: "Memory usage, swap and memory pressure",
        cli_about_network: "Per-interface throughput plus link type (Ethernet speed / Wi-Fi generation)",
        cli_about_disk: "Volume capacity and disk I/O throughput",
        cli_about_gpu: "GPU utilisation, frequency, power and per-process GPU time",
        cli_about_sensors: "Temperatures, fans, thermal pressure and battery",
        cli_about_hardware: "Static hardware inventory from system_profiler",
        cli_about_doctor: "Check which data sources are readable on this machine, and why any are not",
        cli_about_completion: "Print a shell completion script for bmtop to stdout",
        cli_completion_long: "Print a shell completion script for bmtop to stdout.\n\nIt only writes the script to stdout — nothing is installed and no file is touched. Redirect it into the directory your shell loads at startup, then open a new shell:\n\n  bash  bmtop completion bash > $(brew --prefix)/etc/bash_completion.d/bmtop\n  zsh   bmtop completion zsh  > $(brew --prefix)/share/zsh/site-functions/_bmtop\n  fish  bmtop completion fish > ~/.config/fish/completions/bmtop.fish\n\nWithout Homebrew, any directory on bash's $BASH_COMPLETION_COMPAT_DIR or zsh's $fpath works; `echo $fpath` shows the candidates.\n\nOnce loaded, <Tab> completes subcommands, flags and flag values — for instance `bmtop ps --sort <Tab>` offers cpu / memory / pid / energy / power.",
        cli_help_interval: "Sampling interval, e.g. `2s`, `500ms`",
        cli_help_format: "Output format for one-shot subcommands",
        cli_help_watch: "Keep sampling until interrupted instead of printing once",
        cli_help_count: "Sample N times then exit (implies the --watch loop); for scripting",
        cli_help_enhanced: "Merge one sudo `powermetrics` sample in (only `gpu` and `sensors` accept it)",
        cli_help_sensitive: "Do not redact hardware identifiers (serial numbers, UUIDs)",
        cli_help_ps_pid: "Only this PID",
        cli_help_ps_user: "Only processes owned by this user",
        cli_help_ps_sort: "Sort column: cpu | memory | pid | energy | power",
        cli_help_ps_limit: "Keep only the first N rows (truncated after sorting)",
        cli_help_top_mode: "Open on a specific page: 1 overview, 2 processes, … 9 sensors",
        cli_help_net_conn: "Also list active network connections",
        cli_help_hw_cat: "Limit to one category, e.g. `SPDisplaysDataType`; omit to list all",
        cli_help_shell: "Which shell to emit the script for",
        cli_lang_help: "Interface language (zh or en); defaults to LC_ALL / LC_MESSAGES / LANG",
        cli_signal_sent: "Sent {signal} to PID {pid}",
        cli_hardware_categories: "Hardware categories",
        cli_keyboard_note: "Command+1…9 works only when the terminal reports an enhanced keyboard protocol",
    }
}

/// Interface language.
#[derive(Debug, Clone, Copy, PartialEq, Eq, Structural)]
pub enum Language {
    Chinese,
    English,
}

impl Default for Language {
    fn default() -> (l: Self)
        ensures
            l == Language::English,
    {
        Language::English
    }
}

/// The first of the environment's locale values that is set and not empty.
pub open spec fn first_locale(values: Seq<Option<String>>) -> Option<Seq<char>>
    decreases values.len(),
{
    if values.len() == 0 {
        None
    } else {
        match values[0] {
            Some(v) => if v@.len() > 0 { Some(v@) } else { first_locale(values.drop_first()) },
            None => first_locale(values.drop_first()),
        }
    }
}

/// Length of the language tag at the front of a locale name: everything before the first
/// `.` (codeset) or `@` (modifier).
pub open spec fn tag_len(locale: Seq<char>) -> nat
    decreases locale.len(),
{
    if locale.len() == 0 || locale[0] == '.' || locale[0] == '@' {
        0
    } else {
        1 + tag_len(locale.drop_first())
    }
}

/// A locale is Chinese when its tag, compared without regard to ASCII case, is `zh` or
/// starts with `zh_` or `zh-`.
pub open spec fn is_chinese_locale(locale: Seq<char>) -> bool {
    let tag = lower_seq(locale.take(tag_len(locale) as int));
    tag == "zh"@ || starts_with(tag, "zh_"@) || starts_with(tag, "zh-"@)
}

/// The spellings `--lang` accepts, after ASCII lowercasing.
pub open spec fn parse_language(value: Seq<char>) -> Option<Language> {
    let v = lower_seq(value);
    if v == "zh"@ || v == "zh-cn"@ || v == "zh_cn"@ || v == "chinese"@ {
        Some(Language::Chinese)
    } else if v == "en"@ || v == "en-us"@ || v == "en_us"@ || v == "english"@ {
        Some(Language::English)
    } else {
        None
    }
}

impl Language {
    pub open spec fn text(self) -> Strings {
        match self {
            Language::Chinese => chinese_text(),
            Language::English => english_text(),
        }
    }

    pub fn strings(self) -> (s: Strings)
        ensures
            s == self.text(),
    {
        match self {
            Language::Chinese => chinese_strings(),
            Language::English => english_strings(),
        }
    }

    pub open spec fn spec_code(self) -> &'static str {
        match self {
            Language::Chinese => "zh",
            Language::English => "en",
        }
    }

    pub fn code(self) -> (c: &'static str)
        ensures
            c == self.spec_code(),
    {
        match self {
            Language::Chinese => "zh",
            Language::English => "en",
        }
    }

    /// The language of the environment, from the values of `LC_ALL`, `LC_MESSAGES` and
    /// `LANG` in that order (`None` where unset): the first that is set and not empty
    /// decides; with none, English.
    pub fn from_environment(values: &[Option<String>]) -> (l: Language)
        ensures
            l == (match first_locale(values@) {
                Some(locale) => if is_chinese_locale(locale) { Language::Chinese } else { Language::English },
                None => Language::English,
            }),
    {
        let mut i: usize = 0;
        assert(values@.skip(0) =~= values@);
        while i < values.len()
            invariant
                i <= values@.len(),
                first_locale(values@) == first_locale(values@.skip(i as int)),
            decreases values@.len() - i,
        {
            assert(values@.skip(i as int).drop_first() =~= values@.skip(i + 1));
            assert(values@.skip(i as int)[0] == values@[i as int]);
            match &values[i] {
                Some(value) => {
                    if value.unicode_len() > 0 {
                        return Language::from_locale(value.as_str());
                    }
                },
                None => {},
            }
            i = i + 1;
        }
        Language::English
    }

    /// `zh_CN.UTF-8`, `zh-Hant`, `zh` are Chinese; every other locale is English.
    pub fn from_locale(locale: &str) -> (l: Language)
        ensures
            l == (if is_chinese_locale(locale@) { Language::Chinese } else { Language::English }),
    {
        let chars = chars_of(locale);
        let mut end: usize = 0;
        assert(locale@.skip(0) =~= locale@);
        while end < chars.len() && chars[end] != '.' && chars[end] != '@'
            invariant
                end <= chars@.len(),
                chars@ == locale@,
                tag_len(locale@) == end + tag_len(locale@.skip(end as int)),
            decreases chars@.len() - end,
        {
            assert(locale@.skip(end as int).drop_first() =~= locale@.skip(end + 1));
            end = end + 1;
        }
        assert(locale@.take(end as int) =~= chars@.subrange(0, end as int));
        let tag = lower_chars(&chars.as_slice()[0..end]);
        if eq_chars(tag.as_slice(), "zh") || starts_with_lit(tag.as_slice(), "zh_")
            || starts_with_lit(tag.as_slice(), "zh-") {
            Language::Chinese
        } else {
            Language::English
        }
    }

    /// Parses an explicit `--lang` value.
    pub fn parse(value: &str) -> (r: Result<Language, LanguageParseError>)
        ensures
            r == (match parse_language(value@) {
                Some(l) => Ok::<Language, LanguageParseError>(l),
                None => Err(LanguageParseError),
            }),
    {
        let chars = chars_of(value);
        let v = lower_chars(chars.as_slice());
        let v = v.as_slice();
        if eq_chars(v, "zh") || eq_chars(v, "zh-cn") || eq_chars(v, "zh_cn") || eq_chars(v, "chinese") {
            Ok(Language::Chinese)
        } else if eq_chars(v, "en") || eq_chars(v, "en-us") || eq_chars(v, "en_us") || eq_chars(v, "english") {
            Ok(Language::English)
        } else {
            Err(LanguageParseError)
        }
    }
}

/// The `--lang` value was neither Chinese nor English.
#[derive(Debug, Clone, PartialEq, Eq, Structural)]
pub struct LanguageParseError;

impl LanguageParseError {
    pub fn message(&self) -> (m: &'static str)
        ensures
            m == "language must be zh or en",
    {
        "language must be zh or en"
    }
}

impl core::str::FromStr for Language {
    type Err = LanguageParseError;

    fn from_str(s: &str) -> (r: Result<Language, LanguageParseError>)
        ensures
            r == (match parse_language(s@) {
                Some(l) => Ok::<Language, LanguageParseError>(l),
                None => Err(LanguageParseError),
            }),
    {
        Language::parse(s)
    }
}

proof fn lemma_tag_len_bound(locale: Seq<char>)
    ensures
        tag_len(locale) <= locale.len(),
    decreases locale.len(),
{
    if locale.len() > 0 {
        lemma_tag_len_bound(locale.drop_first());
    }
}

proof fn lemma_tag_len_concat(p: Seq<char>, t: Seq<char>)
    requires
        forall|i: int| 0 <= i < p.len() ==> #[trigger] p[i] != '.' && p[i] != '@',
    ensures
        tag_len(p + t) == p.len() + tag_len(t),
    decreases p.len(),
{
    if p.len() > 0 {
        let q = p.drop_first();
        assert forall|i: int| 0 <= i < q.len() implies #[trigger] q[i] != '.' && q[i] != '@' by {
            assert(q[i] == p[i + 1]);
        }
        lemma_tag_len_concat(q, t);
        assert((p + t).drop_first() =~= q + t);
        assert((p + t)[0] == p[0]);
    } else {
        assert(p + t =~= t);
    }
}

/// Every locale whose language tag (the text before the first `.` or `@`) is `zh`, in
/// either case, followed by `_` or `-` and any region is Chinese: `zh_CN.UTF-8`,
/// `zh_TW.UTF-8`, `ZH-hk`, `zh_SG@euro` alike.
pub proof fn lemma_zh_region_locales_are_chinese(
    z: char,
    h: char,
    separator: char,
    region: Seq<char>,
    rest: Seq<char>,
)
    requires
        lower(z) == 'z',
        lower(h) == 'h',
        separator == '_' || separator == '-',
        forall|i: int| 0 <= i < region.len() ==> #[trigger] region[i] != '.' && region[i] != '@',
        rest.len() == 0 || rest[0] == '.' || rest[0] == '@',
    ensures
        is_chinese_locale(seq![z, h, separator] + region + rest),
{
    reveal_strlit("zh_");
    reveal_strlit("zh-");
    let tag = seq![z, h, separator] + region;
    assert forall|i: int| 0 <= i < tag.len() implies #[trigger] tag[i] != '.' && tag[i] != '@' by {
        if i >= 3 {
            assert(tag[i] == region[i - 3]);
        }
    }
    lemma_tag_len_concat(tag, rest);
    assert(tag_len(rest) == 0);
    let locale = seq![z, h, separator] + region + rest;
    assert(locale.take(tag.len() as int) =~= tag);
    let lowered = lower_seq(tag);
    assert(lowered[0] == 'z' && lowered[1] == 'h' && lowered[2] == lower(separator));
    assert(lower(separator) == separator);
    if separator == '_' {
        assert(lowered.subrange(0, 3) =~= "zh_"@);
    } else {
        assert(lowered.subrange(0, 3) =~= "zh-"@);
    }
}

/// A locale whose language tag is `zh` alone, in either case, is Chinese: `zh`,
/// `zh.UTF-8`, `ZH@pinyin`.
pub proof fn lemma_bare_zh_locale_is_chinese(z: char, h: char, rest: Seq<char>)
    requires
        lower(z) == 'z',
        lower(h) == 'h',
        rest.len() == 0 || rest[0] == '.' || rest[0] == '@',
    ensures
        is_chinese_locale(seq![z, h] + rest),
{
    reveal_strlit("zh");
    let tag = seq![z, h];
    lemma_tag_len_concat(tag, rest);
    assert(tag_len(rest) == 0);
    assert((seq![z, h] + rest).take(2) =~= tag);
    assert(lower_seq(tag) =~= "zh"@);
}

/// A locale whose language tag does not begin with `z` or `Z` is English: `en_US.UTF-8`,
/// `fr_FR`, `C`, `POSIX`.
pub proof fn lemma_other_locales_are_english(locale: Seq<char>)
    requires
        locale.len() > 0,
        lower(locale[0]) != 'z',
    ensures
        !is_chinese_locale(locale),
{
    reveal_strlit("zh");
    reveal_strlit("zh_");
    reveal_strlit("zh-");
    lemma_tag_len_bound(locale);
    let head = locale.take(tag_len(locale) as int);
    let tag = lower_seq(head);
    if tag.len() > 0 {
        assert(head[0] == locale[0]);
        assert(tag[0] == lower(head[0]));
        assert(tag != "zh"@);
        assert(!starts_with(tag, "zh_"@)) by {
            if starts_with(tag, "zh_"@) {
                assert(tag.subrange(0, 3)[0] == tag[0]);
            }
        }
        assert(!starts_with(tag, "zh-"@)) by {
            if starts_with(tag, "zh-"@) {
                assert(tag.subrange(0, 3)[0] == tag[0]);
            }
        }
    }
}

} // verus!
