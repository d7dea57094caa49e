<?xml version="1.0" encoding="UTF-8"?>
<interface>
  <requires lib="gtk" version="4.10"/>
  <object class="GtkToggleButton" id="multiview">
    <property name="icon-name">app-grid-symbolic</property>
    <property name="tooltip-text">Toggle multiview</property>
    <style><class name="multiview-toggle-button"/></style>
  </object>
  <object class="GtkButton" id="close">
    <property name="name">top-window-close-button</property>
    <property name="has-frame">false</property>
    <property name="focus-on-click">false</property>
    <property name="valign">center</property>
    <property name="tooltip-text">Close Window</property>
    <style><class name="top-window-close-button"/></style>
    <child><object class="GtkImage">
      <property name="name">top-window-close-icon</property>
      <property name="icon-name">x-symbolic</property>
      <property name="pixel-size">14</property>
      <style><class name="top-window-close-icon"/></style>
    </object></child>
  </object>
</interface>
