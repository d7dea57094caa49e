<?xml version="1.0" encoding="UTF-8"?>
<interface>
  <requires lib="gtk" version="4.10"/>
  <object class="GtkButton" id="row">
    <property name="name">opencode-provider-picker-row</property>
    <property name="hexpand">true</property>
    <property name="has-frame">false</property>
    <style><class name="opencode-provider-picker-row"/></style>
    <child><object class="GtkLabel" id="name">
      <property name="name">opencode-provider-picker-row-label</property>
      <property name="xalign">0</property>
      <property name="hexpand">true</property>
      <property name="ellipsize">end</property>
      <style><class name="opencode-provider-picker-row-label"/></style>
    </object></child>
  </object>
</interface>
