.no-backdrop-blur .composer-floating,
.no-backdrop-blur .chat-worktree-overlay,
.no-backdrop-blur .chat-queued-card,
.no-backdrop-blur .file-preview-card,
.no-backdrop-blur .sidebar-action-button,
.no-backdrop-blur .scroll-down-button,
.no-backdrop-blur .remote-mode-overlay,
.no-backdrop-blur .welcome-overlay {
  backdrop-filter: none;
}

.no-backdrop-blur .composer-floating {
  background: alpha(@view_bg_color, 0.82);
}

.no-backdrop-blur .chat-worktree-overlay {
  background: alpha(@view_bg_color, 0.86);
}

.no-backdrop-blur .chat-queued-card {
  background: alpha(@view_bg_color, 0.8);
}

.no-backdrop-blur .file-preview-card {
  background: alpha(@view_bg_color, 0.94);
}

.no-backdrop-blur .sidebar-action-button {
  background-color: alpha(@window_fg_color, 0.14);
}

.no-backdrop-blur .sidebar-action-button:hover {
  background-color: alpha(@window_fg_color, 0.18);
}

.no-backdrop-blur .sidebar-action-button:active {
  background-color: alpha(@window_fg_color, 0.22);
}

.no-backdrop-blur .scroll-down-button {
  background: alpha(@view_bg_color, 0.2);
}

.no-backdrop-blur .scroll-down-button:hover {
  background: alpha(@view_bg_color, 0.26);
}

.no-backdrop-blur .remote-mode-overlay {
  background: alpha(#2a5ea8, 0.56);
}

.no-backdrop-blur .welcome-overlay {
  background: alpha(#757b86, 0.34);
}

.no-backdrop-blur .welcome-overlay.guide-mode {
  background: alpha(#757b86, 0.22);
}

.no-backdrop-blur .welcome-overlay.is-dismissing {
  background: alpha(#757b86, 0.0);
}
