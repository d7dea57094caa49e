#workspace-thread-list,
#workspace-thread-list > *,
#workspace-thread-listbox,
#workspace-thread-listbox > row.thread-row,
#workspace-thread-listbox > row.thread-row:hover,
#workspace-thread-listbox > row.thread-row:selected,
#workspace-thread-listbox > row.thread-row.thread-row-selected,
#workspace-thread-listbox > row.thread-row:active,
#workspace-thread-listbox > row.thread-row:focus,
#workspace-thread-listbox > row.thread-row:focus-visible {
  background: transparent;
  background-color: transparent;
  background-image: none;
  border: none;
  box-shadow: none;
  outline: none;
}

#workspace-thread-listbox > row.thread-row,
#workspace-thread-listbox > row.thread-row:hover,
#workspace-thread-listbox > row.thread-row:selected,
#workspace-thread-listbox > row.thread-row.thread-row-selected,
#workspace-thread-listbox > row.thread-row:active {
  margin: 2px 0;
  padding: 0;
  border-radius: 0;
  min-height: 0;
}

#workspace-thread-listbox > row.thread-row > box.thread-row-content {
  margin: 0;
}

button#top-window-close-button,
button#top-window-close-button:hover,
button#top-window-close-button:active,
button#top-window-close-button:focus,
button#top-window-close-button:focus-visible {
  min-height: 24px;
  min-width: 24px;
  padding: 0;
  margin: 0;
  border: none;
  border-radius: 999px;
  background: alpha(@window_fg_color, 0.08);
  background-color: alpha(@window_fg_color, 0.08);
  background-image: none;
  box-shadow: none;
  outline: none;
  color: alpha(@window_fg_color, 0.78);
}

button#top-window-close-button:hover,
button#top-window-close-button:active,
button#top-window-close-button:focus,
button#top-window-close-button:focus-visible {
  background: alpha(@window_fg_color, 0.16);
  background-color: alpha(@window_fg_color, 0.16);
  color: alpha(@window_fg_color, 0.96);
}

image#top-window-close-icon,
button#top-window-close-button image {
  color: inherit;
  -gtk-icon-style: symbolic;
  opacity: 1;
}
