scrollbar slider,
scale slider {
  min-width: 6px;
  min-height: 6px;
}

/* Keep muted helper labels consistent across host themes/Flatpak runtimes. */
label.dim-label,
.dim-label {
  color: alpha(@window_fg_color, 0.66);
  opacity: 1;
}

window:backdrop label.dim-label,
window:backdrop .dim-label {
  color: alpha(@window_fg_color, 0.58);
  opacity: 1;
}

/* Ensure placeholder text stays readable on custom surfaces in Flatpak. */
entry placeholder,
entry text placeholder {
  color: alpha(@window_fg_color, 0.52);
  opacity: 1;
}

/* Keep DropDown labels/menu items readable on custom dark surfaces. */
dropdown,
dropdown > button,
dropdown > button > box,
dropdown > button > box > label,
dropdown > button > box > arrow {
  color: alpha(@window_fg_color, 0.94);
}

popover.menu modelbutton,
popover.menu modelbutton > box > label,
popover.menu listview row,
popover.menu listview row label,
popover.menu menuitem,
popover.menu menuitem label,
popover listview row,
popover listview row label {
  color: alpha(@window_fg_color, 0.94);
}
